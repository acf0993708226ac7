use linegrep::collect::path_action;
use linegrep::collect::sort_paths;
use linegrep::collect::str_lex_le;
use linegrep::collect::PathAction;
use linegrep::options::parse_args;

fn args(tokens: &[&str]) -> Vec<String> {
    tokens.iter().map(|t| String::from(*t)).collect()
}

#[test]
fn parse_recognizes_every_flag() {
    let cfg = parse_args(&args(&["prog", "-i", "-n", "-v", "-r", "-f", "-c", "pat", "p1", "p2"]))
        .unwrap();
    assert!(cfg.case_insensitive);
    assert!(cfg.line_numbers);
    assert!(cfg.invert);
    assert!(cfg.recursive);
    assert!(cfg.print_filenames);
    assert!(cfg.color);
    assert!(!cfg.help);
    assert_eq!(cfg.pattern, "pat");
    assert_eq!(cfg.paths, vec![String::from("p1"), String::from("p2")]);
}

#[test]
fn parse_capital_r_enables_recursion() {
    let cfg = parse_args(&args(&["prog", "-R", "pat", "p"])).unwrap();
    assert!(cfg.recursive);
}

#[test]
fn parse_help_short_circuits() {
    let cfg = parse_args(&args(&["prog", "-i", "--help", "-n", "pat"])).unwrap();
    assert!(cfg.help);
    assert!(cfg.case_insensitive);
    assert!(!cfg.line_numbers);
    assert_eq!(cfg.pattern, "");
}

#[test]
fn parse_short_help_flag() {
    let cfg = parse_args(&args(&["prog", "-h"])).unwrap();
    assert!(cfg.help);
}

#[test]
fn parse_ignores_unrecognized_flags() {
    let cfg = parse_args(&args(&["prog", "-z", "--weird", "pat", "p"])).unwrap();
    assert!(!cfg.help);
    assert_eq!(cfg.pattern, "pat");
    assert_eq!(cfg.paths, vec![String::from("p")]);
}

#[test]
fn parse_first_non_flag_is_the_pattern() {
    let cfg = parse_args(&args(&["prog", "alpha", "-n", "beta"])).unwrap();
    assert_eq!(cfg.pattern, "alpha");
    assert!(cfg.line_numbers);
    assert_eq!(cfg.paths, vec![String::from("beta")]);
}

#[test]
fn parse_empty_invocation_gives_defaults() {
    let cfg = parse_args(&args(&["prog"])).unwrap();
    assert!(!cfg.help);
    assert_eq!(cfg.pattern, "");
    assert!(cfg.paths.is_empty());
}

#[test]
fn directory_without_recursion_is_skipped() {
    assert_eq!(path_action(false, false), PathAction::Skip);
    assert_eq!(path_action(false, true), PathAction::WalkRecursively);
    assert_eq!(path_action(true, false), PathAction::SearchFile);
    assert_eq!(path_action(true, true), PathAction::SearchFile);
}

#[test]
fn lexicographic_comparison() {
    assert!(str_lex_le("a", "b"));
    assert!(!str_lex_le("b", "a"));
    assert!(str_lex_le("a", "a"));
    assert!(str_lex_le("a", "ab"));
    assert!(!str_lex_le("ab", "a"));
    assert!(str_lex_le("ab", "b"));
}

#[test]
fn paths_are_searched_in_lexicographic_order() {
    let sorted = sort_paths(vec![
        String::from("dir/b.txt"),
        String::from("a.txt"),
        String::from("dir/a.txt"),
        String::from("a.txt"),
    ]);
    assert_eq!(
        sorted,
        vec![
            String::from("a.txt"),
            String::from("a.txt"),
            String::from("dir/a.txt"),
            String::from("dir/b.txt"),
        ]
    );
    assert_eq!(sort_paths(Vec::new()), Vec::<String>::new());
}
