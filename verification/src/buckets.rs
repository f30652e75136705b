//! The tag classifier: sorts the tags of a repository into buckets, one for
//! each rule that accepts at least one tag.

use crate::registry::ImageTagList;
use crate::rules::{patterns_of, regex_matches, CompiledRule};
use crate::text::{copy_of, same_text, texts};
use vstd::prelude::*;

verus! {

/// One bucket: a name and the tags filed under it, in the order in which they
/// came.
struct TagBucket {
    name: String,
    tags: Vec<String>,
}

/// Buckets of tags by name. No two buckets have the same name. The view maps
/// each name to the tags filed under it.
pub struct TagBuckets {
    entries: Vec<TagBucket>,
}

/// The tags that a map of buckets files under a name: none where it has no
/// such bucket.
pub open spec fn tags_under(buckets: Map<Seq<char>, Seq<Seq<char>>>, name: Seq<char>) -> Seq<
    Seq<char>,
> {
    if buckets.contains_key(name) {
        buckets[name]
    } else {
        Seq::empty()
    }
}

/// Whether the names, with the contents beside them, list the buckets: every
/// bucket is listed once, with the tags filed under its name.
pub open spec fn lists(
    buckets: Map<Seq<char>, Seq<Seq<char>>>,
    names: Seq<Seq<char>>,
    contents: Seq<Seq<Seq<char>>>,
) -> bool {
    &&& names.no_duplicates()
    &&& contents.len() == names.len()
    &&& buckets.dom() == names.to_set()
    &&& forall|i: int| 0 <= i < names.len() ==> buckets[#[trigger] names[i]] == contents[i]
}

impl View for TagBuckets {
    type V = Map<Seq<char>, Seq<Seq<char>>>;

    open spec fn view(&self) -> Map<Seq<char>, Seq<Seq<char>>> {
        Map::new(
            |name: Seq<char>| self.names().contains(name),
            |name: Seq<char>| self.contents()[self.names().index_of(name)],
        )
    }
}

impl TagBuckets {
    #[verifier::type_invariant]
    spec fn names_differ(&self) -> bool {
        forall|i: int, j: int|
            0 <= i < j < self.entries@.len() ==> self.entries@[i].name@ != self.entries@[j].name@
    }

    /// The names of the buckets, in the order in which the buckets were made.
    pub closed spec fn names(&self) -> Seq<Seq<char>> {
        Seq::new(self.entries@.len(), |i: int| self.entries@[i].name@)
    }

    /// The tags of the buckets, bucket by bucket in the order of `names`.
    pub closed spec fn contents(&self) -> Seq<Seq<Seq<char>>> {
        Seq::new(self.entries@.len(), |i: int| texts(self.entries@[i].tags@))
    }

    /// What holds of every set of buckets: its names and contents list what
    /// its view holds.
    pub open spec fn orderly(&self) -> bool {
        lists(self@, self.names(), self.contents())
    }

    proof fn lemma_orderly(&self)
        requires
            self.names_differ(),
        ensures
            self.orderly(),
    {
        let names = self.names();
        assert forall|i: int| 0 <= i < names.len() implies self@[#[trigger] names[i]]
            == self.contents()[i] by {
            assert(names.contains(names[i]));
            let k = names.index_of(names[i]);
            assert(0 <= k < names.len() && names[k] == names[i]);
        }
        assert(self@.dom() =~= names.to_set());
    }

    /// No buckets.
    pub fn new() -> (buckets: TagBuckets)
        ensures
            buckets@ == Map::<Seq<char>, Seq<Seq<char>>>::empty(),
            buckets.names() == Seq::<Seq<char>>::empty(),
            buckets.orderly(),
    {
        let buckets = TagBuckets { entries: Vec::new() };
        proof {
            assert(buckets.names() =~= Seq::<Seq<char>>::empty());
            assert(buckets@ =~= Map::<Seq<char>, Seq<Seq<char>>>::empty());
            buckets.lemma_orderly();
        }
        buckets
    }

    /// The number of buckets. With the answer comes what holds of every set
    /// of buckets.
    pub fn len(&self) -> (count: usize)
        ensures
            count == self.names().len(),
            self.orderly(),
    {
        proof {
            use_type_invariant(self);
            self.lemma_orderly();
        }
        self.entries.len()
    }

    /// Whether there is no bucket. With the answer comes what holds of every
    /// set of buckets.
    pub fn is_empty(&self) -> (empty: bool)
        ensures
            empty == (self.names().len() == 0),
            self.orderly(),
    {
        proof {
            use_type_invariant(self);
            self.lemma_orderly();
        }
        self.entries.len() == 0
    }

    /// The name of the bucket at a place.
    pub fn name(&self, place: usize) -> (name: &str)
        requires
            place < self.names().len(),
        ensures
            name@ == self.names()[place as int],
    {
        self.entries[place].name.as_str()
    }

    /// The tags of the bucket at a place.
    pub fn tags(&self, place: usize) -> (tags: &Vec<String>)
        requires
            place < self.names().len(),
        ensures
            texts(tags@) == self.contents()[place as int],
    {
        &self.entries[place].tags
    }

    /// The place of the bucket with the given name, if there is one.
    pub fn find(&self, name: &str) -> (found: Option<usize>)
        ensures
            self.orderly(),
            match found {
                Some(place) => place < self.names().len() && self.names()[place as int] == name@,
                None => !self.names().contains(name@),
            },
    {
        proof {
            use_type_invariant(self);
            self.lemma_orderly();
        }
        let mut i: usize = 0;
        while i < self.entries.len()
            invariant
                i <= self.entries@.len(),
                self.orderly(),
                forall|k: int| 0 <= k < i ==> self.entries@[k].name@ != name@,
            decreases self.entries@.len() - i,
        {
            if same_text(self.entries[i].name.as_str(), name) {
                return Some(i);
            }
            i = i + 1;
        }
        proof {
            if self.names().contains(name@) {
                let k = self.names().index_of(name@);
                assert(self.entries@[k].name@ == name@);
            }
        }
        None
    }

    /// One bucket of the given name with the given tags.
    pub fn single(name: &str, tags: Vec<String>) -> (buckets: TagBuckets)
        ensures
            buckets@ == Map::<Seq<char>, Seq<Seq<char>>>::empty().insert(name@, texts(tags@)),
            buckets.names() == seq![name@],
            buckets.orderly(),
    {
        let mut entries: Vec<TagBucket> = Vec::new();
        entries.push(TagBucket { name: name.to_owned(), tags });
        let buckets = TagBuckets { entries };
        proof {
            buckets.lemma_orderly();
            assert(buckets.names() =~= seq![name@]);
            assert(buckets.names()[0] == name@);
            assert forall|key: Seq<char>| buckets.names().contains(key) implies key == name@ by {
                let k = buckets.names().index_of(key);
                assert(buckets.names()[k] == key);
            }
            assert(buckets@ =~= Map::<Seq<char>, Seq<Seq<char>>>::empty().insert(
                name@,
                texts(tags@),
            ));
        }
        buckets
    }

    /// Files a tag under a name: at the end of the bucket of that name, or in
    /// a new bucket where there is none yet.
    pub fn add(self, name: &str, tag: &str) -> (filed: TagBuckets)
        ensures
            filed@ == self@.insert(name@, tags_under(self@, name@).push(tag@)),
            filed.names() == if self.names().contains(name@) {
                self.names()
            } else {
                self.names().push(name@)
            },
            filed.orderly(),
    {
        let found = self.find(name);
        proof {
            use_type_invariant(&self);
        }
        let mut entries = self.entries;
        match found {
            Some(place) => {
                entries[place].tags.push(tag.to_owned());
                proof {
                    assert(entries@.len() == self.entries@.len());
                    assert forall|i: int| 0 <= i < entries@.len() implies #[trigger] entries@[i].name
                        == self.entries@[i].name by {}
                    assert(texts(entries@[place as int].tags@) =~= texts(
                        self.entries@[place as int].tags@,
                    ).push(tag@));
                }
            },
            None => {
                let mut tags: Vec<String> = Vec::new();
                tags.push(tag.to_owned());
                proof {
                    assert(texts(tags@) =~= seq![tag@]);
                    assert forall|i: int| 0 <= i < entries@.len() implies #[trigger] entries@[i].name@
                        != name@ by {
                        assert(self.names()[i] == entries@[i].name@);
                    }
                }
                entries.push(TagBucket { name: name.to_owned(), tags });
            },
        }
        let filed = TagBuckets { entries };
        proof {
            filed.lemma_orderly();
            match found {
                Some(place) => {
                    assert(filed.names() =~= self.names());
                    assert(filed.contents() =~= self.contents().update(
                        place as int,
                        self.contents()[place as int].push(tag@),
                    ));
                },
                None => {
                    assert(filed.names() =~= self.names().push(name@));
                    assert(filed.contents() =~= self.contents().push(seq![tag@]));
                },
            }
            self.lemma_orderly();
            let wanted = self@.insert(name@, tags_under(self@, name@).push(tag@));
            assert forall|key: Seq<char>| filed@.contains_key(key) <==> wanted.contains_key(
                key,
            ) by {
                if self.names().contains(key) {
                    let k = self.names().index_of(key);
                    assert(filed.names()[k] == key);
                }
                if filed.names().contains(key) && key != name@ {
                    let k = filed.names().index_of(key);
                    assert(self.names()[k] == key);
                }
                if key == name@ {
                    assert(filed.names()[filed.names().len() - 1] == key || self.names().contains(
                        key,
                    ));
                }
            }
            assert forall|key: Seq<char>| filed@.contains_key(key) implies filed@[key]
                == wanted[key] by {
                let k = filed.names().index_of(key);
                assert(filed.names()[k] == key);
                if key == name@ {
                    match found {
                        Some(place) => {
                            assert(k == place);
                            assert(self.names()[k] == key);
                        },
                        None => {
                            assert(k == filed.names().len() - 1);
                            assert(Seq::<Seq<char>>::empty().push(tag@) =~= seq![tag@]);
                        },
                    }
                } else {
                    assert(self.names()[k] == key);
                }
            }
            assert(filed@ =~= wanted);
        }
        filed
    }
}

/// The name of the one bucket that holds every tag where no rule is given.
pub open spec fn wildcard() -> Seq<char> {
    ".*"@
}

/// The test for the pattern `name`.
pub open spec fn is_pattern(name: Seq<char>) -> spec_fn(Seq<char>) -> bool {
    |rule: Seq<char>| rule == name
}

/// How many of the rules have the pattern `name`.
pub open spec fn occurrences(rules: Seq<Seq<char>>, name: Seq<char>) -> nat {
    rules.filter(is_pattern(name)).len()
}

/// How often a tag is filed under `name`: once for each rule of that pattern,
/// where the pattern accepts the tag.
pub open spec fn copies(rules: Seq<Seq<char>>, name: Seq<char>, tag: Seq<char>) -> nat {
    if regex_matches(name, tag) {
        occurrences(rules, name)
    } else {
        0
    }
}

/// A tag, `times` times.
pub open spec fn repeated(tag: Seq<char>, times: nat) -> Seq<Seq<char>> {
    Seq::new(times, |i: int| tag)
}

/// The tags filed under `name`: the tags in their given order, each as often
/// as `copies` says.
pub open spec fn filed_under(tags: Seq<Seq<char>>, rules: Seq<Seq<char>>, name: Seq<char>) -> Seq<
    Seq<char>,
>
    decreases tags.len(),
{
    if tags.len() == 0 {
        Seq::empty()
    } else {
        filed_under(tags.drop_last(), rules, name) + repeated(
            tags.last(),
            copies(rules, name, tags.last()),
        )
    }
}

/// The buckets that rules make of tags, while the tag `next` is being looked
/// at: the tags `done` have met every rule, `next` has met the rules `seen`.
spec fn sorting(
    done: Seq<Seq<char>>,
    next: Seq<char>,
    rules: Seq<Seq<char>>,
    seen: Seq<Seq<char>>,
) -> Map<Seq<char>, Seq<Seq<char>>> {
    Map::new(
        |name: Seq<char>|
            (filed_under(done, rules, name) + repeated(next, copies(seen, name, next))).len() > 0,
        |name: Seq<char>| filed_under(done, rules, name) + repeated(next, copies(seen, name, next)),
    )
}

/// The buckets that rules make of tags: a bucket for each pattern that
/// accepts at least one tag, with the tags it accepts.
pub open spec fn sorted_by_rules(tags: Seq<Seq<char>>, rules: Seq<Seq<char>>) -> Map<
    Seq<char>,
    Seq<Seq<char>>,
> {
    Map::new(
        |name: Seq<char>| filed_under(tags, rules, name).len() > 0,
        |name: Seq<char>| filed_under(tags, rules, name),
    )
}

/// The buckets of a repository's tags. Without rules there is one bucket,
/// named by the wildcard, that holds every tag. With rules each tag is filed
/// under every rule that accepts it, and a tag that no rule accepts is in no
/// bucket.
pub open spec fn classification(tags: Seq<Seq<char>>, rules: Seq<Seq<char>>) -> Map<
    Seq<char>,
    Seq<Seq<char>>,
> {
    if rules.len() == 0 {
        Map::<Seq<char>, Seq<Seq<char>>>::empty().insert(wildcard(), tags)
    } else {
        sorted_by_rules(tags, rules)
    }
}

proof fn lemma_occurrences_step(rules: Seq<Seq<char>>, j: int, name: Seq<char>)
    requires
        0 <= j < rules.len(),
    ensures
        occurrences(rules.take(j + 1), name) == occurrences(rules.take(j), name) + if rules[j]
            == name {
            1nat
        } else {
            0nat
        },
{
    assert(rules.take(j + 1) =~= rules.take(j).push(rules[j]));
    rules.take(j).lemma_filter_push(rules[j], is_pattern(name));
}

proof fn lemma_sorting_start(done: Seq<Seq<char>>, next: Seq<char>, rules: Seq<Seq<char>>)
    ensures
        sorting(done, next, rules, rules.take(0)) == sorted_by_rules(done, rules),
{
    assert forall|name: Seq<char>|
        filed_under(done, rules, name) + repeated(next, copies(rules.take(0), name, next))
            == filed_under(done, rules, name) by {
        assert(rules.take(0).filter(is_pattern(name)).len() == 0) by {
            rules.take(0).lemma_filter_len(is_pattern(name));
        }
        assert(filed_under(done, rules, name) + repeated(next, 0) =~= filed_under(
            done,
            rules,
            name,
        ));
    }
    assert(sorting(done, next, rules, rules.take(0)) =~= sorted_by_rules(done, rules));
}

proof fn lemma_sorting_end(done: Seq<Seq<char>>, next: Seq<char>, rules: Seq<Seq<char>>)
    ensures
        sorting(done, next, rules, rules) == sorted_by_rules(done.push(next), rules),
{
    assert(done.push(next).drop_last() =~= done);
    assert(sorting(done, next, rules, rules) =~= sorted_by_rules(done.push(next), rules));
}

proof fn lemma_sorting_step(
    done: Seq<Seq<char>>,
    next: Seq<char>,
    rules: Seq<Seq<char>>,
    j: int,
)
    requires
        0 <= j < rules.len(),
    ensures
        regex_matches(rules[j], next) ==> sorting(done, next, rules, rules.take(j + 1)) == sorting(
            done,
            next,
            rules,
            rules.take(j),
        ).insert(
            rules[j],
            tags_under(sorting(done, next, rules, rules.take(j)), rules[j]).push(next),
        ),
        !regex_matches(rules[j], next) ==> sorting(done, next, rules, rules.take(j + 1)) == sorting(
            done,
            next,
            rules,
            rules.take(j),
        ),
{
    let before = sorting(done, next, rules, rules.take(j));
    let after = sorting(done, next, rules, rules.take(j + 1));
    assert forall|name: Seq<char>|
        copies(rules.take(j + 1), name, next) == copies(rules.take(j), name, next) + if rules[j]
            == name && regex_matches(name, next) {
            1nat
        } else {
            0nat
        } by {
        lemma_occurrences_step(rules, j, name);
    }
    if regex_matches(rules[j], next) {
        let name = rules[j];
        let wanted = before.insert(name, tags_under(before, name).push(next));
        assert(repeated(next, copies(rules.take(j + 1), name, next)) =~= repeated(
            next,
            copies(rules.take(j), name, next),
        ).push(next));
        assert(after[name] =~= (filed_under(done, rules, name) + repeated(
            next,
            copies(rules.take(j), name, next),
        )).push(next));
        assert(tags_under(before, name) =~= filed_under(done, rules, name) + repeated(
            next,
            copies(rules.take(j), name, next),
        ));
        assert(after =~= wanted);
    } else {
        assert(after =~= before);
    }
}

/// A pattern occurs among the rules as often as the rules hold it: not at
/// all where they do not hold it, and once where no pattern is given twice.
pub proof fn lemma_occurrences(rules: Seq<Seq<char>>, name: Seq<char>)
    ensures
        occurrences(rules, name) > 0 <==> rules.contains(name),
        rules.no_duplicates() && rules.contains(name) ==> occurrences(rules, name) == 1,
    decreases rules.len(),
{
    if rules.len() == 0 {
        rules.lemma_filter_len(is_pattern(name));
    } else {
        let front = rules.drop_last();
        let last = rules.last();
        assert(rules =~= front.push(last));
        lemma_occurrences(front, name);
        front.lemma_filter_push(last, is_pattern(name));
        if front.contains(name) {
            let k = front.index_of(name);
            assert(rules[k] == name);
        }
        if rules.contains(name) && last != name {
            let k = rules.index_of(name);
            assert(front[k] == name);
        }
        if rules.no_duplicates() {
            assert forall|i: int, j: int| 0 <= i < j < front.len() implies front[i] != front[j] by {
                assert(rules[i] != rules[j]);
            }
            if last == name && front.contains(name) {
                let k = front.index_of(name);
                assert(rules[k] == rules[rules.len() - 1]);
            }
        }
    }
}

/// A tag is filed under a pattern exactly where it is among the tags, the
/// pattern is among the rules, and the pattern accepts it. So a tag that no
/// rule accepts is in no bucket, and one that several rules accept is in the
/// bucket of each.
pub proof fn lemma_filed_where_accepted(
    tags: Seq<Seq<char>>,
    rules: Seq<Seq<char>>,
    name: Seq<char>,
    tag: Seq<char>,
)
    ensures
        filed_under(tags, rules, name).contains(tag) <==> tags.contains(tag) && rules.contains(name)
            && regex_matches(name, tag),
    decreases tags.len(),
{
    if tags.len() > 0 {
        let front = tags.drop_last();
        let last = tags.last();
        let times = copies(rules, name, last);
        let head = filed_under(front, rules, name);
        let tail = repeated(last, times);
        lemma_filed_where_accepted(front, rules, name, tag);
        lemma_occurrences(rules, name);
        if (head + tail).contains(tag) {
            let k = (head + tail).index_of(tag);
            if k < head.len() {
                assert(head[k] == tag);
                let m = front.index_of(tag);
                assert(tags[m] == tag);
            } else {
                assert(tail[k - head.len()] == tag);
                assert(tags[tags.len() - 1] == tag);
            }
        }
        if tags.contains(tag) && rules.contains(name) && regex_matches(name, tag) {
            let m = tags.index_of(tag);
            if m < front.len() {
                assert(front[m] == tag);
                let k = head.index_of(tag);
                assert((head + tail)[k] == tag);
            } else {
                assert(tail[0] == tag);
                assert((head + tail)[head.len() as int] == tag);
            }
        }
    }
}

/// The test for the tags that a pattern accepts.
pub open spec fn accepted_by(name: Seq<char>) -> spec_fn(Seq<char>) -> bool {
    |tag: Seq<char>| regex_matches(name, tag)
}

/// Where no pattern is given twice, the bucket of a pattern holds the tags
/// that the pattern accepts, each once, in their given order.
pub proof fn lemma_filed_once(tags: Seq<Seq<char>>, rules: Seq<Seq<char>>, name: Seq<char>)
    requires
        rules.no_duplicates(),
        rules.contains(name),
    ensures
        filed_under(tags, rules, name) == tags.filter(accepted_by(name)),
    decreases tags.len(),
{
    if tags.len() == 0 {
        tags.lemma_filter_len(accepted_by(name));
        assert(filed_under(tags, rules, name) =~= tags.filter(accepted_by(name)));
    } else {
        let front = tags.drop_last();
        let last = tags.last();
        assert(tags =~= front.push(last));
        lemma_filed_once(front, rules, name);
        lemma_occurrences(rules, name);
        front.lemma_filter_push(last, accepted_by(name));
        assert(filed_under(tags, rules, name) =~= tags.filter(accepted_by(name)));
    }
}

/// Sorting the same tags by the same rules twice gives the same buckets.
pub proof fn lemma_classification_repeatable(
    tags: Seq<Seq<char>>,
    rules: Seq<Seq<char>>,
    once: Map<Seq<char>, Seq<Seq<char>>>,
    again: Map<Seq<char>, Seq<Seq<char>>>,
)
    requires
        once == classification(tags, rules),
        again == classification(tags, rules),
    ensures
        once == again,
{
}

/// Sorts all of the given tags into buckets by the given rules: each tag
/// goes, in the order of the listing, into the bucket of every rule that
/// accepts it. Where no rule is given, one bucket named `.*` holds every tag.
pub fn get_matching_tags(tag_list: &ImageTagList, regex_tags: &Vec<CompiledRule>) -> (buckets:
    TagBuckets)
    ensures
        buckets@ == classification(tag_list@, patterns_of(regex_tags@)),
        buckets.orderly(),
{
    let tags = tag_list.tags();
    let ghost all = texts(tags@);
    let ghost rules = patterns_of(regex_tags@);
    if regex_tags.len() == 0 {
        let copy = copy_of(tags);
        return TagBuckets::single(".*", copy);
    }
    let mut buckets = TagBuckets::new();
    proof {
        assert(all.take(0) =~= Seq::<Seq<char>>::empty());
        assert(buckets@ =~= sorted_by_rules(all.take(0), rules));
    }
    let mut i: usize = 0;
    while i < tags.len()
        invariant
            i <= tags@.len(),
            all == texts(tags@),
            rules == patterns_of(regex_tags@),
            buckets@ == sorted_by_rules(all.take(i as int), rules),
            buckets.orderly(),
        decreases tags@.len() - i,
    {
        let tag = tags[i].as_str();
        proof {
            lemma_sorting_start(all.take(i as int), tag@, rules);
        }
        let mut j: usize = 0;
        while j < regex_tags.len()
            invariant
                j <= regex_tags@.len(),
                i < tags@.len(),
                tag@ == all[i as int],
                all == texts(tags@),
                rules == patterns_of(regex_tags@),
                buckets@ == sorting(all.take(i as int), tag@, rules, rules.take(j as int)),
                buckets.orderly(),
            decreases regex_tags@.len() - j,
        {
            proof {
                lemma_sorting_step(all.take(i as int), tag@, rules, j as int);
            }
            if regex_tags[j].accepts(tag) {
                buckets = buckets.add(regex_tags[j].pattern(), tag);
            }
            j = j + 1;
        }
        proof {
            assert(rules.take(j as int) =~= rules);
            lemma_sorting_end(all.take(i as int), tag@, rules);
            assert(all.take(i + 1) =~= all.take(i as int).push(tag@));
        }
        i = i + 1;
    }
    proof {
        assert(all.take(i as int) =~= all);
    }
    buckets
}

} // verus!
