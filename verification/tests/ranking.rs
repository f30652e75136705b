use registry_sweep::ranking::{classify_tags, rank_tags, split_ranked};
use registry_sweep::text::{copy_of, same_text, str_at_least};
use registry_sweep::versions::{names_version, version_part, version_tags_in_order};

fn tags_of(items: &[&str]) -> Vec<String> {
    items.iter().map(|s| s.to_string()).collect()
}

#[test]
fn semver_mode_keeps_highest_version() {
    let (keep, remove) =
        classify_tags(tags_of(&["v1.2.0", "v1.1.0", "v2.0.0", "latest"]), 1, true);
    assert_eq!(keep, tags_of(&["v2.0.0"]));
    assert_eq!(remove, tags_of(&["v1.2.0", "v1.1.0"]));
    assert!(!keep.contains(&"latest".to_string()));
    assert!(!remove.contains(&"latest".to_string()));
}

#[test]
fn lexicographic_mode_keeps_last_in_order() {
    let (keep, remove) = classify_tags(tags_of(&["c", "a", "b"]), 2, false);
    assert_eq!(keep, tags_of(&["c", "b"]));
    assert_eq!(remove, tags_of(&["a"]));
}

#[test]
fn limit_equal_to_count_removes_nothing() {
    let (keep, remove) = classify_tags(tags_of(&["b", "a", "c"]), 3, false);
    assert_eq!(keep, tags_of(&["c", "b", "a"]));
    assert!(remove.is_empty());
}

#[test]
fn limit_above_count_keeps_everything() {
    let (keep, remove) = classify_tags(tags_of(&["1.0.0", "2.0.0"]), 10, true);
    assert_eq!(keep, tags_of(&["2.0.0", "1.0.0"]));
    assert!(remove.is_empty());
}

#[test]
fn limit_zero_removes_everything() {
    let (keep, remove) = classify_tags(tags_of(&["a", "b"]), 0, false);
    assert!(keep.is_empty());
    assert_eq!(remove, tags_of(&["b", "a"]));
}

#[test]
fn no_tags_give_empty_lists() {
    let (keep, remove) = classify_tags(Vec::new(), 3, true);
    assert!(keep.is_empty());
    assert!(remove.is_empty());
}

#[test]
fn keep_and_remove_partition_the_tags() {
    let given = tags_of(&["dev-3", "dev-1", "main", "dev-2", "zeta", "alpha"]);
    for limit in 0..8usize {
        let (keep, remove) = classify_tags(given.clone(), limit, false);
        assert_eq!(keep.len(), limit.min(given.len()));
        assert_eq!(keep.len() + remove.len(), given.len());
        for tag in &keep {
            assert!(!remove.contains(tag));
        }
        let mut all = keep.clone();
        all.extend(remove.clone());
        let mut sorted = given.clone();
        sorted.sort();
        sorted.reverse();
        assert_eq!(all, sorted);
    }
}

#[test]
fn lexicographic_mode_drops_no_tag() {
    let given = tags_of(&["latest", "v1.0.0", "", "not a version", "1.0"]);
    let ranked = rank_tags(&given, false);
    assert_eq!(ranked.len(), given.len());
    for tag in &given {
        assert!(ranked.contains(tag));
    }
}

#[test]
fn semver_mode_drops_what_names_no_version() {
    let given = tags_of(&["latest", "v1.0.0", "", "1.0", "vv2.0.0", "2.0.0", "V3.0.0", "1.0.0-rc.1"]);
    let ranked = rank_tags(&given, true);
    assert_eq!(ranked, tags_of(&["2.0.0", "v1.0.0", "1.0.0-rc.1"]));
}

#[test]
fn semver_mode_orders_numbers_as_numbers() {
    let ranked = rank_tags(&tags_of(&["1.9.0", "1.10.0", "v1.2.0", "0.99.99"]), true);
    assert_eq!(ranked, tags_of(&["1.10.0", "1.9.0", "v1.2.0", "0.99.99"]));
}

#[test]
fn semver_mode_puts_prereleases_below_releases() {
    let ranked = rank_tags(
        &tags_of(&["1.0.0-alpha", "1.0.0", "1.0.0-beta.11", "1.0.0-beta.2", "1.0.0-alpha.1"]),
        true,
    );
    assert_eq!(
        ranked,
        tags_of(&["1.0.0", "1.0.0-beta.11", "1.0.0-beta.2", "1.0.0-alpha.1", "1.0.0-alpha"])
    );
}

#[test]
fn lexicographic_mode_compares_bytes() {
    let ranked = rank_tags(&tags_of(&["1.9.0", "1.10.0", "b", "B", "ab", "a", "é"]), false);
    assert_eq!(ranked, tags_of(&["é", "b", "ab", "a", "B", "1.9.0", "1.10.0"]));
}

#[test]
fn repeated_tags_stay_repeated() {
    let (keep, remove) = classify_tags(tags_of(&["a", "b", "a"]), 2, false);
    assert_eq!(keep, tags_of(&["b", "a"]));
    assert_eq!(remove, tags_of(&["a"]));
}

#[test]
fn split_is_at_the_limit() {
    let (keep, remove) = split_ranked(tags_of(&["z", "y", "x"]), 1);
    assert_eq!(keep, tags_of(&["z"]));
    assert_eq!(remove, tags_of(&["y", "x"]));
    let (keep, remove) = split_ranked(tags_of(&["z", "y", "x"]), 5);
    assert_eq!(keep, tags_of(&["z", "y", "x"]));
    assert!(remove.is_empty());
}

#[test]
fn version_part_strips_one_leading_v() {
    assert_eq!(version_part("v1.2.3"), "1.2.3");
    assert_eq!(version_part("vv1.2.3"), "v1.2.3");
    assert_eq!(version_part("1.2.3"), "1.2.3");
    assert_eq!(version_part("v"), "");
    assert_eq!(version_part(""), "");
    assert_eq!(version_part("V1.2.3"), "V1.2.3");
}

#[test]
fn names_version_follows_the_version_grammar() {
    assert!(names_version("1.2.3"));
    assert!(names_version("v1.2.3"));
    assert!(names_version("v1.2.3-rc.1+build.5"));
    assert!(!names_version("vv1.2.3"));
    assert!(!names_version("1.2"));
    assert!(!names_version("1.02.3"));
    assert!(!names_version("latest"));
    assert!(!names_version(""));
    assert!(!names_version("v"));
    assert!(!names_version("1.2.3 "));
}

#[test]
fn version_tags_compare_by_version() {
    assert_eq!(version_tags_in_order("v1.10.0", "1.9.0"), Some(true));
    assert_eq!(version_tags_in_order("1.9.0", "v1.10.0"), Some(false));
    assert_eq!(version_tags_in_order("v1.0.0", "1.0.0"), Some(true));
    assert_eq!(version_tags_in_order("1.0.0-rc.1", "1.0.0"), Some(false));
    assert_eq!(version_tags_in_order("latest", "1.0.0"), None);
    assert_eq!(version_tags_in_order("1.0.0", "latest"), None);
}

#[test]
fn string_order_is_by_bytes() {
    assert!(str_at_least("b", "a"));
    assert!(!str_at_least("a", "b"));
    assert!(str_at_least("a", "a"));
    assert!(str_at_least("ab", "a"));
    assert!(!str_at_least("a", "ab"));
    assert!(str_at_least("", ""));
    assert!(!str_at_least("", "a"));
    assert!(str_at_least("a", "B"));
    assert!(str_at_least("é", "z"));
}

#[test]
fn same_text_tells_strings_apart() {
    assert!(same_text("abc", "abc"));
    assert!(!same_text("abc", "abd"));
    assert!(!same_text("abc", "ab"));
    assert!(same_text("", ""));
}

#[test]
fn copy_of_copies_every_string() {
    let given = tags_of(&["x", "", "yz"]);
    assert_eq!(copy_of(&given), given);
}
