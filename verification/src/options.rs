//! The invocation's configuration, and how it is read from the command-line
//! tokens: flags in any position, the first non-flag token the pattern, the
//! rest the paths, and help short-circuiting everything.

use vstd::prelude::*;
use vstd::string::StrSliceExecFns;
use crate::matcher::str_eq;

verus! {

/// The options of one invocation, read once and never changed.
pub struct Config {
    pub pattern: String,
    pub paths: Vec<String>,
    pub case_insensitive: bool,
    pub line_numbers: bool,
    pub invert: bool,
    pub recursive: bool,
    pub print_filenames: bool,
    pub color: bool,
    pub help: bool,
}

/// The mathematical shape of a configuration.
pub ghost struct SpecConfig {
    pub pattern: Seq<char>,
    pub paths: Seq<Seq<char>>,
    pub case_insensitive: bool,
    pub line_numbers: bool,
    pub invert: bool,
    pub recursive: bool,
    pub print_filenames: bool,
    pub color: bool,
    pub help: bool,
}

impl View for Config {
    type V = SpecConfig;

    open spec fn view(&self) -> SpecConfig {
        SpecConfig {
            pattern: self.pattern@,
            paths: self.paths.deep_view(),
            case_insensitive: self.case_insensitive,
            line_numbers: self.line_numbers,
            invert: self.invert,
            recursive: self.recursive,
            print_filenames: self.print_filenames,
            color: self.color,
            help: self.help,
        }
    }
}

/// The configuration before any token is read: everything off and empty.
pub open spec fn spec_config_default() -> SpecConfig {
    SpecConfig {
        pattern: Seq::empty(),
        paths: Seq::empty(),
        case_insensitive: false,
        line_numbers: false,
        invert: false,
        recursive: false,
        print_filenames: false,
        color: false,
        help: false,
    }
}

impl Default for Config {
    /// The default configuration: everything off and empty.
    fn default() -> (c: Config)
        ensures
            c@ == spec_config_default(),
    {
        let c = Config {
            pattern: String::new(),
            paths: Vec::new(),
            case_insensitive: false,
            line_numbers: false,
            invert: false,
            recursive: false,
            print_filenames: false,
            color: false,
            help: false,
        };
        proof {
            assert(c@.paths =~= spec_config_default().paths);
        }
        c
    }
}

/// Reading the tokens from position `i` on, with the configuration read so
/// far: a help token stops everything, recognized flags set their option,
/// other dash tokens are ignored, the first remaining token is the pattern
/// and every later one a path.
pub open spec fn spec_parse_from(
    args: Seq<Seq<char>>,
    i: int,
    acc: SpecConfig,
    have_pattern: bool,
) -> SpecConfig
    decreases args.len() - i,
{
    if i < 0 || i >= args.len() {
        acc
    } else {
        let a = args[i];
        if a == "-h"@ || a == "--help"@ {
            SpecConfig { help: true, ..acc }
        } else if a == "-i"@ {
            spec_parse_from(args, i + 1, SpecConfig { case_insensitive: true, ..acc }, have_pattern)
        } else if a == "-n"@ {
            spec_parse_from(args, i + 1, SpecConfig { line_numbers: true, ..acc }, have_pattern)
        } else if a == "-v"@ {
            spec_parse_from(args, i + 1, SpecConfig { invert: true, ..acc }, have_pattern)
        } else if a == "-r"@ || a == "-R"@ {
            spec_parse_from(args, i + 1, SpecConfig { recursive: true, ..acc }, have_pattern)
        } else if a == "-f"@ {
            spec_parse_from(args, i + 1, SpecConfig { print_filenames: true, ..acc }, have_pattern)
        } else if a == "-c"@ {
            spec_parse_from(args, i + 1, SpecConfig { color: true, ..acc }, have_pattern)
        } else if a.len() > 0 && a[0] == '-' {
            spec_parse_from(args, i + 1, acc, have_pattern)
        } else if !have_pattern {
            spec_parse_from(args, i + 1, SpecConfig { pattern: a, ..acc }, true)
        } else {
            spec_parse_from(args, i + 1, SpecConfig { paths: acc.paths.push(a), ..acc }, have_pattern)
        }
    }
}

/// The configuration read from a full token list, the leading program name
/// skipped.
pub open spec fn spec_parse(args: Seq<Seq<char>>) -> SpecConfig {
    spec_parse_from(args, 1, spec_config_default(), false)
}

/// Reads the configuration from the command-line tokens (the first token,
/// the program's own name, is skipped).
pub fn parse_args(args: &Vec<String>) -> (r: Option<Config>)
    ensures
        r matches Some(cfg) && cfg@ == spec_parse(args.deep_view()),
{
    let ghost dv = args.deep_view();
    let mut cfg = Config::default();
    let mut have_pattern = false;
    let mut i: usize = 1;
    while i < args.len()
        invariant
            1 <= i,
            i <= args@.len() || i == 1,
            dv == args.deep_view(),
            dv.len() == args@.len(),
            spec_parse(dv) == spec_parse_from(dv, i as int, cfg@, have_pattern),
        decreases args@.len() - i,
    {
        let ghost prev = cfg@;
        let ghost prev_hp = have_pattern;
        let arg = &args[i];
        proof {
            assert(dv[i as int] == args@[i as int]@);
        }
        if str_eq(arg.as_str(), "-h") || str_eq(arg.as_str(), "--help") {
            cfg.help = true;
            proof {
                assert(spec_parse_from(dv, i as int, prev, prev_hp) == cfg@);
            }
            return Some(cfg);
        }
        if str_eq(arg.as_str(), "-i") {
            cfg.case_insensitive = true;
        } else if str_eq(arg.as_str(), "-n") {
            cfg.line_numbers = true;
        } else if str_eq(arg.as_str(), "-v") {
            cfg.invert = true;
        } else if str_eq(arg.as_str(), "-r") || str_eq(arg.as_str(), "-R") {
            cfg.recursive = true;
        } else if str_eq(arg.as_str(), "-f") {
            cfg.print_filenames = true;
        } else if str_eq(arg.as_str(), "-c") {
            cfg.color = true;
        } else if arg.as_str().unicode_len() > 0 && arg.as_str().get_char(0) == '-' {
        } else if !have_pattern {
            cfg.pattern = arg.clone();
            have_pattern = true;
        } else {
            cfg.paths.push(arg.clone());
            proof {
                assert(cfg@.paths =~= prev.paths.push(dv[i as int]));
            }
        }
        proof {
            assert(spec_parse_from(dv, i as int, prev, prev_hp) == spec_parse_from(
                dv,
                i + 1,
                cfg@,
                have_pattern,
            ));
        }
        i = i + 1;
    }
    Some(cfg)
}

} // verus!
