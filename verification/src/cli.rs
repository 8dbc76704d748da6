//! Command-line arguments.

use vstd::prelude::*;
use crate::text::{contains, push_str, starts_with, str_contains, str_eq, str_starts_with};

verus! {

/// How the results are shown.
#[derive(Debug, Clone, Copy, PartialEq, Eq, Structural)]
pub enum Output {
    /// The interactive terminal view.
    Tui,
    /// JSON on standard output.
    Json,
    /// Text on standard output.
    Text,
}

/// Why no run follows the arguments.
#[derive(Debug, Clone, Copy, PartialEq, Eq, Structural)]
pub enum ArgsError {
    /// `-h` / `--help`: print the usage and succeed.
    Help,
    /// Bad arguments: print the usage and fail.
    Usage,
}

/// The parsed command line.
pub struct Args {
    pub url: String,
    pub output: Output,
    /// Exit with failure where any item is `✗`.
    pub validate: bool,
}

/// The flags seen so far and the target, if any.
pub type ScanState = (bool, bool, Option<Seq<char>>);

/// Reads one argument.
pub open spec fn scan_step(st: ScanState, a: Seq<char>) -> Result<ScanState, ArgsError> {
    if a == "--json"@ {
        Ok((true, st.1, st.2))
    } else if a == "--validate"@ {
        Ok((st.0, true, st.2))
    } else if a == "-h"@ || a == "--help"@ {
        Err(ArgsError::Help)
    } else if starts_with(a, "-"@) || st.2 is Some {
        Err(ArgsError::Usage)
    } else {
        Ok((st.0, st.1, Some(a)))
    }
}

/// Reads the arguments in order, stopping at the first that ends the scan.
pub open spec fn scan(args: Seq<Seq<char>>) -> Result<ScanState, ArgsError>
    decreases args.len(),
{
    if args.len() == 0 {
        Ok((false, false, None))
    } else {
        match scan(args.drop_last()) {
            Err(e) => Err(e),
            Ok(st) => scan_step(st, args.last()),
        }
    }
}

/// The URL for a target: as given where it has a scheme, else `https://`.
pub open spec fn target_url(t: Seq<char>) -> Seq<char> {
    if contains(t, "://"@) {
        t
    } else {
        "https://"@ + t
    }
}

/// The output for the flags: JSON wins, then text for `--validate`.
pub open spec fn output_of(json: bool, validate: bool) -> Output {
    if json {
        Output::Json
    } else if validate {
        Output::Text
    } else {
        Output::Tui
    }
}

/// The arguments as (url, output, validate), or why there is no run: help
/// asked for, an unknown flag, a second target, or no target.
pub open spec fn parse_args(args: Seq<Seq<char>>) -> Result<(Seq<char>, Output, bool), ArgsError> {
    match scan(args) {
        Err(e) => Err(e),
        Ok((json, validate, target)) => match target {
            None => Err(ArgsError::Usage),
            Some(t) => Ok((target_url(t), output_of(json, validate), validate)),
        },
    }
}

impl Args {
    /// Parses the arguments (without the program name).
    pub fn parse(args: Vec<String>) -> (r: Result<Self, ArgsError>)
        ensures
            match r {
                Ok(a) => parse_args(args@.map_values(|s: String| s@)) == Ok::<(Seq<char>, Output, bool), ArgsError>((a.url@, a.output, a.validate)),
                Err(e) => parse_args(args@.map_values(|s: String| s@)) == Err::<(Seq<char>, Output, bool), ArgsError>(e),
            },
    {
        let ghost m = args@.map_values(|s: String| s@);
        let mut json = false;
        let mut validate = false;
        let mut target: Option<String> = None;
        let mut i: usize = 0;
        while i < args.len()
            invariant
                i <= args.len(),
                m == args@.map_values(|s: String| s@),
                scan(m.take(i as int)) == Ok::<ScanState, ArgsError>(
                    (
                        json,
                        validate,
                        match target {
                            Some(t) => Some(t@),
                            None => None,
                        },
                    ),
                ),
            decreases args.len() - i,
        {
            assert(m.take(i + 1).drop_last() == m.take(i as int));
            assert(m.take(i + 1).last() == args@[i as int]@);
            let a = args[i].as_str();
            if str_eq(a, "--json") {
                json = true;
            } else if str_eq(a, "--validate") {
                validate = true;
            } else if str_eq(a, "-h") || str_eq(a, "--help") {
                proof {
                    lemma_scan_err_stays(m, i as int + 1);
                }
                return Err(ArgsError::Help);
            } else if str_starts_with(a, "-") || target.is_some() {
                proof {
                    lemma_scan_err_stays(m, i as int + 1);
                }
                return Err(ArgsError::Usage);
            } else {
                target = Some(args[i].clone());
            }
            i = i + 1;
        }
        assert(m.take(i as int) == m);
        let t = match target {
            Some(t) => t,
            None => return Err(ArgsError::Usage),
        };
        let url = if str_contains(t.as_str(), "://") {
            t
        } else {
            let mut u = "https://".to_owned();
            push_str(&mut u, t.as_str());
            u
        };
        let output = if json {
            Output::Json
        } else if validate {
            Output::Text
        } else {
            Output::Tui
        };
        Ok(Args { url, output, validate })
    }
}

/// Once the scan has stopped, reading more arguments keeps its answer.
pub proof fn lemma_scan_err_stays(args: Seq<Seq<char>>, k: int)
    requires
        0 <= k <= args.len(),
        scan(args.take(k)) is Err,
    ensures
        scan(args) == scan(args.take(k)),
    decreases args.len() - k,
{
    if k < args.len() {
        assert(args.take(k + 1).drop_last() == args.take(k));
        lemma_scan_err_stays(args, k + 1);
    } else {
        assert(args.take(k) == args);
    }
}

/// Where the scan succeeds, its flags say whether `--json` and
/// `--validate` were given.
proof fn lemma_scan_flags(args: Seq<Seq<char>>)
    ensures
        scan(args) matches Ok(st) ==> (st.0 == exists|i: int|
            0 <= i < args.len() && #[trigger] args[i] == "--json"@) && (st.1 == exists|i: int|
            0 <= i < args.len() && #[trigger] args[i] == "--validate"@),
    decreases args.len(),
{
    if args.len() > 0 {
        let rest = args.drop_last();
        let n = args.len() - 1;
        lemma_scan_flags(rest);
        assert forall|i: int| 0 <= i < rest.len() implies #[trigger] rest[i] == args[i] by {}
        assert("--json"@ != "--validate"@) by {
            reveal_strlit("--json");
            reveal_strlit("--validate");
            assert("--json"@.len() == 6);
            assert("--validate"@.len() == 10);
        }
        if let Ok(st) = scan(args) {
            let prev = scan(rest)->Ok_0;
            let j = exists|i: int| 0 <= i < args.len() && #[trigger] args[i] == "--json"@;
            let v = exists|i: int| 0 <= i < args.len() && #[trigger] args[i] == "--validate"@;
            if prev.0 {
                let i = choose|i: int| 0 <= i < rest.len() && #[trigger] rest[i] == "--json"@;
                assert(args[i] == "--json"@);
            }
            if prev.1 {
                let i = choose|i: int| 0 <= i < rest.len() && #[trigger] rest[i] == "--validate"@;
                assert(args[i] == "--validate"@);
            }
            if j {
                let i = choose|i: int| 0 <= i < args.len() && #[trigger] args[i] == "--json"@;
                if i < n {
                    assert(rest[i] == "--json"@);
                }
            }
            if v {
                let i = choose|i: int| 0 <= i < args.len() && #[trigger] args[i] == "--validate"@;
                if i < n {
                    assert(rest[i] == "--validate"@);
                }
            }
            if args[n] == "--json"@ {
                assert(st.0);
            }
            if args[n] == "--validate"@ {
                assert(st.1);
            }
        }
    }
}

/// `--json` gives JSON output whatever else is given; `--validate` without
/// it gives text; neither gives the interactive view.
pub proof fn lemma_output_choice(args: Seq<Seq<char>>)
    requires
        parse_args(args) is Ok,
    ensures
        ({
            let json = exists|i: int| 0 <= i < args.len() && #[trigger] args[i] == "--json"@;
            let validate = exists|i: int| 0 <= i < args.len() && #[trigger] args[i] == "--validate"@;
            &&& parse_args(args)->Ok_0.1 == output_of(json, validate)
            &&& parse_args(args)->Ok_0.2 == validate
        }),
{
    lemma_scan_flags(args);
}

} // verus!
