use registry_sweep::report::{
    append_decimal, join_lines, write_deleted, write_eligible, write_missing_digest,
    write_nothing_eligible, write_to_be_deleted,
};

fn decimal_of(number: usize) -> String {
    let mut text = String::new();
    append_decimal(&mut text, number);
    text
}

#[test]
fn numbers_are_written_in_base_ten() {
    assert_eq!(decimal_of(0), "0");
    assert_eq!(decimal_of(7), "7");
    assert_eq!(decimal_of(10), "10");
    assert_eq!(decimal_of(1234567890), "1234567890");
    assert_eq!(decimal_of(usize::MAX), usize::MAX.to_string());
    for number in 0..1200usize {
        assert_eq!(decimal_of(number), number.to_string());
    }
}

#[test]
fn decimal_is_appended_to_what_is_there() {
    let mut text = String::from("n=");
    append_decimal(&mut text, 42);
    assert_eq!(text, "n=42");
}

#[test]
fn lines_are_joined_with_the_separator_between() {
    let lines = vec!["a".to_string(), "b".to_string(), "c".to_string()];
    assert_eq!(join_lines(&lines, "\n"), "a\nb\nc");
    assert_eq!(join_lines(&lines, "\n\t"), "a\n\tb\n\tc");
    assert_eq!(join_lines(&vec!["only".to_string()], ", "), "only");
    assert_eq!(join_lines(&Vec::new(), ", "), "");
    assert_eq!(join_lines(&vec![String::new(), String::new()], "-"), "-");
}

#[test]
fn log_lines_have_their_words() {
    assert_eq!(write_nothing_eligible("app"), "[app] No tags eligable for deletion found.");
    assert_eq!(
        write_eligible("app", 12, "^dev-"),
        "[app] Found 12 tags eligable for deletion for pattern /^dev-/"
    );
    assert_eq!(write_to_be_deleted("library/nginx", "v1"), "[library/nginx] tag to be deleted v1");
    assert_eq!(write_deleted("library/nginx", "v1"), "[library/nginx] Deleted v1");
    assert_eq!(
        write_missing_digest("app", "old"),
        "[app] WARNING: Couldn't find tag digest for old"
    );
}
