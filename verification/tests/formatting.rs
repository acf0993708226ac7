use linegrep::format::format_line;
use linegrep::format::normalize_path;
use linegrep::format::process_line;
use linegrep::format::usize_to_string;
use linegrep::highlight::find_spans;
use linegrep::highlight::highlight_line;
use linegrep::options::Config;

const RED: &str = "\u{1b}[31m";
const RESET: &str = "\u{1b}[0m";

fn plain_config(pattern: &str) -> Config {
    Config {
        pattern: String::from(pattern),
        paths: Vec::new(),
        case_insensitive: false,
        line_numbers: false,
        invert: false,
        recursive: false,
        print_filenames: false,
        color: false,
        help: false,
    }
}

#[test]
fn quick_fox_plain_formatting() {
    let mut cfg = plain_config("quick");
    cfg.case_insensitive = true;
    let out = format_line("The Quick fox", 0, "x.txt", &cfg, true);
    assert_eq!(out, "The Quick fox");
}

#[test]
fn quick_fox_highlighted_formatting() {
    colored::control::set_override(true);
    let mut cfg = plain_config("quick");
    cfg.case_insensitive = true;
    cfg.color = true;
    let out = format_line("The Quick fox", 0, "x.txt", &cfg, true);
    assert_eq!(out, format!("The {RED}Quick{RESET} fox"));
}

#[test]
fn inverted_line_is_emitted_verbatim() {
    colored::control::set_override(true);
    let mut cfg = plain_config("cat");
    cfg.invert = true;
    cfg.color = true;
    let out = process_line("the dog ran", 0, "x.txt", &cfg);
    assert_eq!(out, Some(String::from("the dog ran")));
}

#[test]
fn matching_line_is_dropped_under_invert() {
    let mut cfg = plain_config("dog");
    cfg.invert = true;
    assert_eq!(process_line("the dog ran", 0, "x.txt", &cfg), None);
}

#[test]
fn filename_and_line_number_prefixes() {
    let mut cfg = plain_config("hello");
    cfg.print_filenames = true;
    cfg.line_numbers = true;
    let out = format_line("hello", 4, "notes.txt", &cfg, true);
    assert_eq!(out, "notes.txt: 5: hello");
}

#[test]
fn filename_prefix_alone() {
    let mut cfg = plain_config("hello");
    cfg.print_filenames = true;
    let out = format_line("hello", 4, "notes.txt", &cfg, true);
    assert_eq!(out, "notes.txt: hello");
}

#[test]
fn line_number_prefix_alone() {
    let mut cfg = plain_config("hello");
    cfg.line_numbers = true;
    let out = format_line("hello", 4, "notes.txt", &cfg, true);
    assert_eq!(out, "5: hello");
}

#[test]
fn empty_pattern_highlights_nothing() {
    colored::control::set_override(true);
    assert_eq!(find_spans("hello", ""), Vec::<(usize, usize)>::new());
    assert_eq!(highlight_line("hello", "", false), "hello");
}

#[test]
fn overlapping_occurrences_are_not_double_counted() {
    assert_eq!(find_spans("aaaa", "aa"), vec![(0, 2), (2, 4)]);
}

#[test]
fn spans_found_left_to_right() {
    assert_eq!(find_spans("xabyabz", "ab"), vec![(1, 3), (4, 6)]);
    assert_eq!(find_spans("ab", "ab"), vec![(0, 2)]);
    assert_eq!(find_spans("xyz", "ab"), Vec::<(usize, usize)>::new());
}

#[test]
fn highlight_wraps_every_occurrence() {
    colored::control::set_override(true);
    let out = highlight_line("aaaa", "aa", false);
    assert_eq!(out, format!("{RED}aa{RESET}{RED}aa{RESET}"));
}

#[test]
fn highlight_disabled_leaves_line_unchanged() {
    colored::control::set_override(false);
    let out = highlight_line("aaaa", "aa", false);
    assert_eq!(out, "aaaa");
    colored::control::unset_override();
}

#[test]
fn highlight_case_insensitive_wraps_unfolded_text() {
    colored::control::set_override(true);
    let out = highlight_line("The Quick fox", "QUICK", true);
    assert_eq!(out, format!("The {RED}Quick{RESET} fox"));
}

#[test]
fn stripping_emphasis_recovers_the_line() {
    colored::control::set_override(true);
    let line = "The Quick fox asked a quick QUICK question";
    let out = highlight_line(line, "quick", true);
    assert_eq!(out.replace(RED, "").replace(RESET, ""), line);
}

#[test]
fn formatting_twice_gives_identical_output() {
    colored::control::set_override(true);
    let mut cfg = plain_config("quick");
    cfg.case_insensitive = true;
    cfg.color = true;
    cfg.line_numbers = true;
    let a = format_line("The Quick fox", 7, "x.txt", &cfg, true);
    let b = format_line("The Quick fox", 7, "x.txt", &cfg, true);
    assert_eq!(a, b);
    cfg.color = false;
    let c = format_line("The Quick fox", 7, "x.txt", &cfg, true);
    let d = format_line("The Quick fox", 7, "x.txt", &cfg, true);
    assert_eq!(c, d);
}

#[test]
fn decimal_rendering() {
    assert_eq!(usize_to_string(0), "0");
    assert_eq!(usize_to_string(5), "5");
    assert_eq!(usize_to_string(10), "10");
    assert_eq!(usize_to_string(1234), "1234");
    assert_eq!(usize_to_string(1000000), "1000000");
}

#[test]
fn paths_are_displayed_with_forward_slashes() {
    assert_eq!(normalize_path("a\\b\\c.txt"), "a/b/c.txt");
    assert_eq!(normalize_path("a/b/c.txt"), "a/b/c.txt");
    let mut cfg = plain_config("x");
    cfg.print_filenames = true;
    let out = format_line("x marks", 0, "dir\\notes.txt", &cfg, true);
    assert_eq!(out, "dir/notes.txt: x marks");
}
