use why_do_you_bot::utils::string_utils::{
    batch, contains_in, find_first, normalize_words, split_str, str_contains, to_lower, trim_str,
    truncated, StringLn,
};

#[test]
fn batch_packs_words_under_budget() {
    let rows = batch("aaa bbb ccc", 7);
    assert_eq!(rows, vec![String::from("aaa bbb"), String::from("ccc")]);
    for row in &rows {
        assert!(row.chars().count() <= 7);
    }
}

#[test]
fn batch_is_deterministic() {
    let first = batch("some words for the layout engine to wrap", 9);
    let second = batch("some words for the layout engine to wrap", 9);
    assert_eq!(first, second);
}

#[test]
fn batch_truncates_long_word_into_single_row() {
    let rows = batch("aaaaaaaaaa", 7);
    assert_eq!(rows, vec![String::from("aaaa...")]);
    assert_eq!(rows[0].chars().count(), 7);
}

#[test]
fn batch_long_word_is_not_split_across_rows() {
    let rows = batch("hi incomprehensibilities yo", 10);
    assert_eq!(
        rows,
        vec![
            String::from("hi"),
            String::from("incompr..."),
            String::from("yo"),
        ]
    );
}

#[test]
fn batch_of_empty_text() {
    assert_eq!(batch("", 7), vec![String::from("")]);
}

#[test]
fn truncated_keeps_short_words() {
    assert_eq!(truncated(String::from("abc"), 7), "abc");
    assert_eq!(truncated(String::from("abcdefg"), 7), "abcdefg");
}

#[test]
fn truncated_marks_the_cut() {
    assert_eq!(truncated(String::from("abcdefgh"), 7), "abcd...");
}

#[test]
fn contains_in_finds_words() {
    let found = contains_in(
        String::from("qqq,www"),
        String::from("a message with qqq inside"),
    );
    assert_eq!(found, vec![String::from("qqq")]);
}

#[test]
fn contains_in_is_case_insensitive() {
    let found = contains_in(String::from("Test"), String::from("this is a TEST message"));
    assert_eq!(found, vec![String::from("test")]);
    let found = contains_in(String::from("TEST"), String::from("this is a test message"));
    assert_eq!(found, vec![String::from("test")]);
}

#[test]
fn contains_in_skips_empty_words() {
    let found = contains_in(String::from(",,"), String::from("anything"));
    assert!(found.is_empty());
}

#[test]
fn contains_in_no_match() {
    let found = contains_in(String::from("qqq,www"), String::from("nothing here"));
    assert!(found.is_empty());
}

#[test]
fn normalize_words_example() {
    assert_eq!(normalize_words(String::from("test,, lol,")), "test,lol");
}

#[test]
fn normalize_words_trims_folds_and_joins() {
    assert_eq!(normalize_words(String::from("  A, b,,C  ")), "a,b,c");
    assert_eq!(normalize_words(String::from("")), "");
}

#[test]
fn count_is_the_character_count() {
    assert_eq!("hello".count(), 5);
    assert_eq!(String::from("hello").count(), 5);
    assert_eq!("".count(), 0);
}

#[test]
fn split_str_keeps_empty_segments() {
    assert_eq!(
        split_str("a,,b", ','),
        vec![String::from("a"), String::from(""), String::from("b")]
    );
    assert_eq!(split_str("", ','), vec![String::from("")]);
}

#[test]
fn str_contains_checks_substrings() {
    assert!(str_contains("hello world", "lo wo"));
    assert!(str_contains("hello", ""));
    assert!(!str_contains("hello", "world"));
    assert!(!str_contains("ab", "abc"));
}

#[test]
fn find_first_returns_leftmost_position() {
    assert_eq!(find_first("xx/gen hi", "/gen "), Some(2));
    assert_eq!(find_first("abc", "zz"), None);
}

#[test]
fn to_lower_folds_case() {
    assert_eq!(to_lower("MiXeD"), "mixed");
    assert_eq!(to_lower(""), "");
}

#[test]
fn trim_str_strips_whitespace() {
    assert_eq!(trim_str("  abc\t\n"), "abc");
    assert_eq!(trim_str("abc"), "abc");
    assert_eq!(trim_str(" \t "), "");
}
