use refac::pattern::{
    asks_for_hidden, decide_regex, matches_any, matches_filters, matches_glob, matches_pattern,
    name_is_hidden,
};
use refac::text::{
    contains_char, contains_ignoring_case, contains_str, decimal_string, ends_with_str, join,
    keep_apart, lowercase, repeat_char, replace_all, replace_ignoring_case, same_text,
    starts_with_str, to_chars,
};

#[test]
fn replace_all_goes_left_to_right_without_overlap() {
    assert_eq!(replace_all("hello old_name world", "old_name", "new_name"), "hello new_name world");
    assert_eq!(replace_all("aaa", "aa", "b"), "ba");
    assert_eq!(replace_all("abab", "ab", ""), "");
    assert_eq!(replace_all("none here", "xyz", "q"), "none here");
    assert_eq!(replace_all("a", "a", "aa"), "aa");
    assert_eq!(replace_all("日本語old日本語", "old", "新"), "日本語新日本語");
    assert_eq!(replace_all("text", "", "x"), "text");
    assert_eq!(replace_all("", "a", "b"), "");
}

#[test]
fn searching_works_on_characters() {
    assert!(contains_str("hello world", "lo wo"));
    assert!(contains_str("anything", ""));
    assert!(!contains_str("abc", "abcd"));
    assert!(!contains_str("héllo", "hello"));
    assert!(starts_with_str("héllo", "hé"));
    assert!(!starts_with_str("héllo", "el"));
    assert!(ends_with_str("héllo", "llo"));
    assert!(!ends_with_str("lo", "llo"));
    assert!(contains_char("a/b", '/'));
    assert!(!contains_char("ab", '/'));
    assert!(same_text("日本", "日本"));
    assert!(!same_text("ab", "abc"));
    assert_eq!(to_chars("aé"), vec!['a', 'é']);
}

#[test]
fn rendering_is_exact() {
    assert_eq!(decimal_string(0), "0");
    assert_eq!(decimal_string(7), "7");
    assert_eq!(decimal_string(10), "10");
    assert_eq!(decimal_string(18446744073709551615), "18446744073709551615");
    assert_eq!(repeat_char('=', 3), "===");
    assert_eq!(repeat_char('=', 0), "");
    assert_eq!(join(&vec!["a".to_string(), "b".to_string(), "c".to_string()], ", "), "a, b, c");
    assert_eq!(join(&vec!["a".to_string()], ", "), "a");
    assert_eq!(join(&vec![], ", "), "");
    assert_eq!(lowercase("TeSt.EXE"), "test.exe");
}

#[test]
fn globs_are_prefix_and_suffix_or_substring() {
    assert!(matches_glob("main.rs", "*.rs"));
    assert!(matches_glob("main.rs", "main*"));
    assert!(matches_glob("main.rs", "ma*rs"));
    assert!(!matches_glob("main.rs", "*.py"));
    // Prefix and suffix may overlap in the name.
    assert!(matches_glob("aba", "ab*ba"));
    assert!(matches_glob(".gitignore", ".*"));
    assert!(!matches_glob("gitignore", ".*"));
    assert!(matches_glob("my_test_file", "test"));
    assert!(!matches_glob("my_file", "test"));
    // Two stars are taken literally.
    assert!(!matches_glob("abc", "a*b*c"));
    assert!(matches_glob("xa*b*cx", "a*b*c"));
    assert!(matches_glob("anything", "*"));
    assert!(matches_glob("anything", ""));
}

#[test]
fn patterns_follow_case_and_regex_flags() {
    assert!(!matches_pattern("README.md", "readme*", false, false));
    assert!(matches_pattern("README.md", "readme*", true, false));
    assert!(matches_pattern("file123.txt", r"^file\d+\.txt$", false, true));
    assert!(!matches_pattern("file.txt", r"^file\d+\.txt$", false, true));
    assert!(matches_pattern("FILE123.TXT", r"^file\d+\.txt$", true, true));
    // A pattern that is no valid expression matches nothing.
    assert!(!matches_pattern("a(b", "a(b", false, true));
    assert!(matches_pattern("a(b", "a(b", false, false));
    assert!(decide_regex(Some(true)));
    assert!(!decide_regex(Some(false)));
    assert!(!decide_regex(None));
}

#[test]
fn filters_need_an_include_match_and_no_exclude_match() {
    let includes = vec!["*.rs".to_string(), "*.toml".to_string()];
    let excludes = vec!["test".to_string()];
    let none: Vec<String> = vec![];
    assert!(matches_any("main.rs", &includes, false, false));
    assert!(!matches_any("main.py", &includes, false, false));
    assert!(!matches_any("main.rs", &none, false, false));
    assert!(matches_filters("main.rs", &includes, &excludes, false, false));
    assert!(!matches_filters("main_test.rs", &includes, &excludes, false, false));
    assert!(!matches_filters("main.py", &includes, &excludes, false, false));
    assert!(matches_filters("main.py", &none, &excludes, false, false));
    assert!(matches_filters("anything", &none, &none, false, false));
    assert!(name_is_hidden(".git"));
    assert!(!name_is_hidden("git"));
    assert!(!name_is_hidden(""));
    assert!(asks_for_hidden(&vec!["src".to_string(), ".*".to_string()]));
    assert!(asks_for_hidden(&vec!["*.rs".to_string()]));
    assert!(!asks_for_hidden(&vec!["src".to_string()]));
    assert!(!asks_for_hidden(&none));
}

#[test]
fn strings_keep_apart_unless_one_can_form_where_the_other_was_put() {
    assert!(keep_apart("old_name", "new_name"));
    assert!(keep_apart("x", "y"));
    assert!(keep_apart("ab", "cb"));
    assert!(keep_apart("foo", "bar"));
    // One holds the other.
    assert!(!keep_apart("a", "aa"));
    assert!(!keep_apart("aab", "a"));
    assert!(!keep_apart("same", "same"));
    // One ends the way the other begins.
    assert!(!keep_apart("ab", "bx"));
    assert!(!keep_apart("ab", "xa"));
    assert!(!keep_apart("abc", "cab"));
}

#[test]
fn nothing_is_left_to_replace_where_the_strings_keep_apart() {
    let pairs = [("old_name", "new_name"), ("ab", "cb"), ("x", "y"), ("aa", "b")];
    let texts = [
        "hello old_name world",
        "old_nameold_name old_nam old_name",
        "aab abab aaab bab",
        "xxyxyyx",
        "aaaaa aaaa",
        "",
    ];
    for (old, new) in pairs {
        assert!(keep_apart(old, new));
        for text in texts {
            let once = replace_all(text, old, new);
            assert!(!contains_str(&once, old));
            assert_eq!(replace_all(&once, old, new), once);
        }
    }
    // Where they do not keep apart, a second pass may find more.
    assert_eq!(replace_all("a", "a", "aa"), "aa");
    assert!(contains_str("aa", "a"));
    assert_eq!(replace_all("aab", "ab", "b"), "ab");
}

#[test]
fn replacing_without_regard_to_case_touches_the_matches_only() {
    assert_eq!(replace_ignoring_case("MyOLD_File.txt", "old", "new"), "Mynew_File.txt");
    assert_eq!(replace_ignoring_case("MyOLD_File.txt", "OlD", "new"), "Mynew_File.txt");
    assert_eq!(replace_ignoring_case("oldOLDOld", "old", "X"), "XXX");
    assert_eq!(replace_ignoring_case("AaAaA", "aa", "b"), "bbA");
    assert_eq!(replace_ignoring_case("Nothing Here", "old", "new"), "Nothing Here");
    assert_eq!(replace_ignoring_case("", "old", "new"), "");
    assert_eq!(replace_ignoring_case("ÄRGER ärger", "ärger", "x"), "x x");
    assert_eq!(replace_ignoring_case("OLD", "old", "Old"), "Old");
    assert_eq!(replace_ignoring_case("olD", "old", ""), "");

    assert!(contains_ignoring_case("MyOLD_File.txt", "old"));
    assert!(contains_ignoring_case("MyOLD_File.txt", "FILE"));
    assert!(!contains_ignoring_case("MyOLD_File.txt", "odl"));
    assert!(!contains_ignoring_case("", "old"));
    assert!(!contains_ignoring_case("ol", "old"));
}
