use vault_outline::text::{chars_of, contains_text, found_at, remove_all, same_text};

#[test]
fn characters_come_out_in_order() {
    assert_eq!(chars_of("a-ö€"), vec!['a', '-', 'ö', '€']);
    assert_eq!(chars_of(""), Vec::<char>::new());
}

#[test]
fn same_text_compares_all_characters() {
    assert!(same_text("conf-end:", "conf-end:"));
    assert!(same_text("", ""));
    assert!(!same_text("conf-end:", "conf-end"));
    assert!(!same_text("abc", "abd"));
    assert!(!same_text("", "a"));
}

#[test]
fn substring_is_found_anywhere() {
    assert!(contains_text("draft-notes.md", "draft"));
    assert!(contains_text("draft-notes.md", "notes"));
    assert!(contains_text("draft-notes.md", ".md"));
    assert!(contains_text("draft-notes.md", "draft-notes.md"));
    assert!(contains_text("draft-notes.md", ""));
    assert!(contains_text("", ""));
    assert!(contains_text("aab", "ab"));
    assert!(contains_text("größe", "öß"));
}

#[test]
fn missing_substring_is_not_found() {
    assert!(!contains_text("draft-notes.md", "drafts"));
    assert!(!contains_text("draft-notes.md", "draft-notes.mdx"));
    assert!(!contains_text("", "a"));
    assert!(!contains_text("abab", "ba b"));
    assert!(!contains_text("abc", "ac"));
}

#[test]
fn occurrence_is_tested_at_one_position() {
    let hay = chars_of("abcabc");
    let needle = chars_of("bc");
    assert!(found_at(&hay, &needle, 1));
    assert!(found_at(&hay, &needle, 4));
    assert!(!found_at(&hay, &needle, 0));
    assert!(!found_at(&hay, &needle, 3));
    assert!(found_at(&hay, &Vec::new(), 6));
}

#[test]
fn every_occurrence_is_removed() {
    assert_eq!(remove_all("- param1", "- "), "param1");
    assert_eq!(remove_all("- a - b", "- "), "a b");
    assert_eq!(remove_all("conf-start:excluded_directories", "conf-start:"), "excluded_directories");
    assert_eq!(remove_all("abc", "x"), "abc");
    assert_eq!(remove_all("", "x"), "");
    assert_eq!(remove_all("xxx", "x"), "");
}

#[test]
fn occurrences_are_taken_from_the_left_without_overlap() {
    assert_eq!(remove_all("aaa", "aa"), "a");
    assert_eq!(remove_all("ababa", "aba"), "ba");
    assert_eq!(remove_all("aabb", "ab"), "ab");
    assert_eq!(remove_all("-- x", "- "), "-x");
}

#[test]
fn empty_pattern_removes_nothing() {
    assert_eq!(remove_all("abc", ""), "abc");
    assert_eq!(remove_all("", ""), "");
}

#[test]
fn removal_agrees_with_the_standard_library() {
    for (text, pattern) in [("- a- b -c", "- "), ("äöü-ä", "ä"), ("a.b.c", "."), ("aaaa", "aaa")] {
        assert_eq!(remove_all(text, pattern), text.replace(pattern, ""));
    }
}
