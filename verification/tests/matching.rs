use linegrep::matcher::contains_str;
use linegrep::matcher::is_match;
use linegrep::matcher::should_emit;
use linegrep::matcher::str_eq;

#[test]
fn case_sensitive_match_agrees_with_containment() {
    let cases = [
        ("hello world", "world"),
        ("hello world", "lo wo"),
        ("hello world", "worlds"),
        ("hello world", "Hello"),
        ("", "a"),
        ("abc", "abc"),
        ("abc", "abcd"),
        ("aaaa", "aa"),
        ("the dog ran", "cat"),
    ];
    for (line, pat) in cases {
        assert_eq!(is_match(line, pat, false), line.contains(pat));
    }
}

#[test]
fn case_insensitive_match_agrees_with_folded_containment() {
    let cases = [
        ("The Quick fox", "quick"),
        ("THE QUICK FOX", "quick"),
        ("the quick fox", "QUICK"),
        ("The Quick fox", "slow"),
        ("MiXeD CaSe", "mixed c"),
        ("ÄBC", "äb"),
        ("", ""),
        ("abc", ""),
    ];
    for (line, pat) in cases {
        assert_eq!(
            is_match(line, pat, true),
            line.to_lowercase().contains(&pat.to_lowercase())
        );
    }
}

#[test]
fn empty_pattern_matches_every_line() {
    assert!(is_match("", "", false));
    assert!(is_match("anything", "", false));
    assert!(is_match("anything", "", true));
}

#[test]
fn should_emit_is_xor() {
    assert_eq!(should_emit(false, false), false);
    assert_eq!(should_emit(true, false), true);
    assert_eq!(should_emit(false, true), true);
    assert_eq!(should_emit(true, true), false);
}

#[test]
fn quick_fox_matches_case_insensitively() {
    assert!(is_match("The Quick fox", "quick", true));
    assert!(!is_match("The Quick fox", "quick", false));
}

#[test]
fn non_matching_line_is_emitted_under_invert() {
    let m = is_match("the dog ran", "cat", false);
    assert!(!m);
    assert!(should_emit(m, true));
}

#[test]
fn contains_str_finds_substrings() {
    assert!(contains_str("abcdef", "cde"));
    assert!(!contains_str("abcdef", "ceb"));
    assert!(contains_str("abcdef", ""));
    assert!(!contains_str("", "x"));
}

#[test]
fn str_eq_compares_characters() {
    assert!(str_eq("abc", "abc"));
    assert!(!str_eq("abc", "abd"));
    assert!(!str_eq("abc", "ab"));
    assert!(str_eq("", ""));
}
