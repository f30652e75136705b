//! Semantic versions of tags. Parsing and comparing versions is the work of
//! the `semver` crate; this module states what the library relies on.

use semver::Version;
use vstd::prelude::*;

verus! {

/// Whether `semver::Version::parse` accepts `text` as a semantic version.
pub uninterp spec fn semver_parses(text: Seq<char>) -> bool;

/// Whether, of the two versions that `semver::Version::parse` reads from `a`
/// and from `b`, the first is greater than or equal to the second in the
/// order of `semver::Version`. It has a meaning only where both texts parse.
pub uninterp spec fn semver_at_least(a: Seq<char>, b: Seq<char>) -> bool;

/// The text of a tag in which a version is looked for: the tag without one
/// leading `v`, if it has one.
pub open spec fn version_text(tag: Seq<char>) -> Seq<char> {
    if tag.len() > 0 && tag[0] == 'v' {
        tag.subrange(1, tag.len() as int)
    } else {
        tag
    }
}

/// Whether a tag names a semantic version.
pub open spec fn is_version_tag(tag: Seq<char>) -> bool {
    semver_parses(version_text(tag))
}

/// Calls `semver::Version::parse` and reports whether it accepted the text.
/// The answer depends on the text alone.
#[verifier::external_body]
fn parses_as_version(text: &str) -> (r: bool)
    ensures
        r == semver_parses(text@),
{
    Version::parse(text).is_ok()
}

/// Parses both texts with `semver::Version::parse` and compares the two
/// versions with `>=`. `semver::Version` derives its order from its fields and
/// documents it as a total order: of two versions one is at least the other,
/// and the order is transitive. The second clause states the first of these
/// for the pair that was compared, the last two clauses state the second for
/// the pair and any third version.
#[verifier::external_body]
fn version_at_least(a: &str, b: &str) -> (r: bool)
    requires
        semver_parses(a@),
        semver_parses(b@),
    ensures
        r == semver_at_least(a@, b@),
        !r ==> semver_at_least(b@, a@),
        r ==> forall|c: Seq<char>|
            #![trigger semver_at_least(c, a@)]
            semver_parses(c) && semver_at_least(c, a@) ==> semver_at_least(c, b@),
        !r ==> forall|c: Seq<char>|
            #![trigger semver_at_least(a@, c)]
            semver_parses(c) && semver_at_least(a@, c) ==> semver_at_least(b@, c),
{
    match (Version::parse(a), Version::parse(b)) {
        (Ok(x), Ok(y)) => x >= y,
        _ => false,
    }
}

/// The part of a tag in which a version is looked for.
pub fn version_part(tag: &str) -> (r: &str)
    ensures
        r@ == version_text(tag@),
{
    let n: usize = tag.unicode_len();
    if n > 0 && tag.get_char(0) == 'v' {
        tag.substring_char(1, n)
    } else {
        tag
    }
}

/// Whether a tag names a semantic version.
pub fn names_version(tag: &str) -> (r: bool)
    ensures
        r == is_version_tag(tag@),
{
    parses_as_version(version_part(tag))
}

/// Whether the version of tag `a` is at least the version of tag `b`. Besides
/// the answer, the caller learns what the order being total and transitive
/// gives for this pair.
pub fn version_tag_at_least(a: &str, b: &str) -> (r: bool)
    requires
        is_version_tag(a@),
        is_version_tag(b@),
    ensures
        r == semver_at_least(version_text(a@), version_text(b@)),
        !r ==> semver_at_least(version_text(b@), version_text(a@)),
        r ==> forall|c: Seq<char>|
            #![trigger semver_at_least(version_text(c), version_text(a@))]
            is_version_tag(c) && semver_at_least(version_text(c), version_text(a@))
                ==> semver_at_least(version_text(c), version_text(b@)),
        !r ==> forall|c: Seq<char>|
            #![trigger semver_at_least(version_text(a@), version_text(c))]
            is_version_tag(c) && semver_at_least(version_text(a@), version_text(c))
                ==> semver_at_least(version_text(b@), version_text(c)),
{
    version_at_least(version_part(a), version_part(b))
}

/// Compares two tags by their versions: `Some(true)` where the version of `a`
/// is at least that of `b`, `Some(false)` where it is smaller, and `None` where
/// one of the tags names no version.
pub fn version_tags_in_order(a: &str, b: &str) -> (r: Option<bool>)
    ensures
        r.is_some() == (is_version_tag(a@) && is_version_tag(b@)),
        r matches Some(at_least) ==> at_least == semver_at_least(
            version_text(a@),
            version_text(b@),
        ),
{
    if names_version(a) && names_version(b) {
        Some(version_tag_at_least(a, b))
    } else {
        None
    }
}

} // verus!
