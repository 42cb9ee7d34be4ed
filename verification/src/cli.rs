//! Command-line parsing.
use vstd::prelude::*;

use crate::text::{
    chars_of, chars_start_with, has_prefix, join_strings, join_with, owned, push_str, str_eq,
    string_of, sub_chars, views,
};
use crate::{default_repo_root, default_repo_root_spec, expand_home, expand_home_spec, opt_view};

verus! {

/// A parsed command line: the repository root and the command to run.
#[derive(Debug, Clone, PartialEq, Eq)]
pub struct Cli {
    pub root: String,
    pub command: Command,
}

/// Why no command line could be parsed: help was asked for (or no command
/// given), or the arguments are wrong. Each carries the text to print.
#[derive(Debug, Clone, PartialEq, Eq)]
pub enum ParseError {
    Help(String),
    Error(String),
}

/// The command to run.
#[derive(Debug, Clone, PartialEq, Eq)]
pub enum Command {
    Scan,
    Rust,
    Git(GitCommand),
    Clean(CleanCommand),
}

/// The `git` subcommands.
#[derive(Debug, Clone, PartialEq, Eq)]
pub enum GitCommand {
    Status,
}

/// The `clean` subcommands.
#[derive(Debug, Clone, PartialEq, Eq)]
pub enum CleanCommand {
    Target(CleanTargetOptions),
    Shared(CleanSharedOptions),
}

/// Options of `clean target`.
#[derive(Debug, Clone, Copy, PartialEq, Eq)]
pub struct CleanTargetOptions {
    pub dry_run: bool,
    pub yes: bool,
}

/// Options of `clean shared`.
#[derive(Debug, Clone, Copy, PartialEq, Eq)]
pub struct CleanSharedOptions {
    pub yes: bool,
}

impl Default for CleanTargetOptions {
    fn default() -> (r: Self)
        ensures
            !r.dry_run && !r.yes,
    {
        CleanTargetOptions { dry_run: false, yes: false }
    }
}

impl Default for CleanSharedOptions {
    fn default() -> (r: Self)
        ensures
            !r.yes,
    {
        CleanSharedOptions { yes: false }
    }
}

/// A parse error as text.
pub enum ParseErrorSpec {
    Help(Seq<char>),
    Error(Seq<char>),
}

/// A parsed command line with its root as text.
pub struct CliSpec {
    pub root: Seq<char>,
    pub command: Command,
}

impl View for ParseError {
    type V = ParseErrorSpec;

    open spec fn view(&self) -> ParseErrorSpec {
        match self {
            ParseError::Help(m) => ParseErrorSpec::Help(m@),
            ParseError::Error(m) => ParseErrorSpec::Error(m@),
        }
    }
}

impl View for Cli {
    type V = CliSpec;

    open spec fn view(&self) -> CliSpec {
        CliSpec { root: self.root@, command: self.command }
    }
}

/// The result of parsing, as text.
pub open spec fn parse_result_view(r: Result<Cli, ParseError>) -> Result<CliSpec, ParseErrorSpec> {
    match r {
        Ok(c) => Ok(c@),
        Err(e) => Err(e@),
    }
}

/// The usage text.
pub open spec fn help_text_spec() -> Seq<char> {
    "Usage:\n  disk-maint [--root PATH] scan\n  disk-maint [--root PATH] rust\n  disk-maint [--root PATH] git status\n  disk-maint [--root PATH] clean target [--dry-run | --yes]\n\nOptions:\n  -r, --root PATH   Repository root to scan (default: ~/labs/repos)\n      --dry-run     Show the clean target plan without prompting or deleting\n      --yes         Delete planned target/ directories without prompting\n  -h, --help        Show this help"@
}

/// What has been read from the arguments so far.
pub struct ArgState {
    pub root: Seq<char>,
    pub dry_run: bool,
    pub yes: bool,
    pub positional: Seq<Seq<char>>,
}

/// `s` with every leading repetition of `p` removed, as `trim_start_matches`.
pub open spec fn strip_prefix_all(s: Seq<char>, p: Seq<char>) -> Seq<char>
    decreases s.len(),
{
    if p.len() > 0 && has_prefix(s, p) {
        strip_prefix_all(s.subrange(p.len() as int, s.len() as int), p)
    } else {
        s
    }
}

/// Reads the arguments from index `i` on, starting from state `st`: options
/// update the state, `--help` and unknown options stop with an error, and
/// anything else is a positional word.
pub open spec fn scan_args(
    args: Seq<Seq<char>>,
    i: int,
    st: ArgState,
    home: Option<Seq<char>>,
) -> Result<ArgState, ParseErrorSpec>
    decreases args.len() - i,
{
    if i < 0 || i >= args.len() {
        Ok(st)
    } else {
        let a = args[i];
        if a == "-h"@ || a == "--help"@ {
            Err(ParseErrorSpec::Help(help_text_spec()))
        } else if a == "--dry-run"@ {
            scan_args(
                args,
                i + 1,
                ArgState { root: st.root, dry_run: true, yes: st.yes, positional: st.positional },
                home,
            )
        } else if a == "--yes"@ {
            scan_args(
                args,
                i + 1,
                ArgState { root: st.root, dry_run: st.dry_run, yes: true, positional: st.positional },
                home,
            )
        } else if a == "-r"@ || a == "--root"@ {
            if i + 1 < args.len() {
                scan_args(
                    args,
                    i + 2,
                    ArgState {
                        root: expand_home_spec(args[i + 1], home),
                        dry_run: st.dry_run,
                        yes: st.yes,
                        positional: st.positional,
                    },
                    home,
                )
            } else {
                Err(ParseErrorSpec::Error("missing value for --root"@))
            }
        } else if has_prefix(a, "--root="@) {
            scan_args(
                args,
                i + 1,
                ArgState {
                    root: expand_home_spec(strip_prefix_all(a, "--root="@), home),
                    dry_run: st.dry_run,
                    yes: st.yes,
                    positional: st.positional,
                },
                home,
            )
        } else if a.len() > 0 && a[0] == '-' {
            Err(ParseErrorSpec::Error("unknown option: "@ + a + "\n\n"@ + help_text_spec()))
        } else {
            scan_args(
                args,
                i + 1,
                ArgState {
                    root: st.root,
                    dry_run: st.dry_run,
                    yes: st.yes,
                    positional: st.positional.push(a),
                },
                home,
            )
        }
    }
}

/// The command named by the positional words, given the options read.
pub open spec fn select_command(st: ArgState) -> Result<Command, ParseErrorSpec> {
    let p = st.positional;
    if p.len() == 1 && p[0] == "scan"@ {
        Ok(Command::Scan)
    } else if p.len() == 1 && p[0] == "rust"@ {
        Ok(Command::Rust)
    } else if p.len() == 2 && p[0] == "git"@ && p[1] == "status"@ {
        Ok(Command::Git(GitCommand::Status))
    } else if p.len() == 2 && p[0] == "clean"@ && p[1] == "target"@ {
        if st.dry_run && st.yes {
            Err(ParseErrorSpec::Error("--dry-run cannot be used with --yes"@))
        } else {
            Ok(
                Command::Clean(
                    CleanCommand::Target(CleanTargetOptions { dry_run: st.dry_run, yes: st.yes }),
                ),
            )
        }
    } else if p.len() == 2 && p[0] == "clean"@ && p[1] == "shared"@ {
        if st.dry_run {
            Err(ParseErrorSpec::Error("--dry-run is only valid with `clean target`"@))
        } else {
            Ok(Command::Clean(CleanCommand::Shared(CleanSharedOptions { yes: st.yes })))
        }
    } else if p.len() == 0 {
        Err(ParseErrorSpec::Help(help_text_spec()))
    } else {
        Err(
            ParseErrorSpec::Error(
                "unknown command: "@ + join_with(p, " "@) + "\n\n"@ + help_text_spec(),
            ),
        )
    }
}

/// Whether a command accepts no clean options.
pub open spec fn takes_no_clean_options(c: Command) -> bool {
    !(c is Clean)
}

/// The state before any argument is read.
pub open spec fn initial_state(home: Option<Seq<char>>) -> ArgState {
    ArgState { root: default_repo_root_spec(home), dry_run: false, yes: false, positional: seq![] }
}

/// The parse of `args` (whose first element is the program name), with
/// `home` the home directory used for the default root and for `~`.
pub open spec fn parse_args_spec(args: Seq<Seq<char>>, home: Option<Seq<char>>) -> Result<
    CliSpec,
    ParseErrorSpec,
> {
    match scan_args(args, 1, initial_state(home), home) {
        Err(e) => Err(e),
        Ok(st) => match select_command(st) {
            Err(e) => Err(e),
            Ok(command) => {
                if takes_no_clean_options(command) && (st.dry_run || st.yes) {
                    Err(ParseErrorSpec::Error("--dry-run and --yes are only valid with `clean target`"@))
                } else {
                    Ok(CliSpec { root: st.root, command })
                }
            },
        },
    }
}

impl ParseError {
    /// The text carried by the error.
    pub fn message(&self) -> (r: &str)
        ensures
            r@ == match self {
                ParseError::Help(m) => m@,
                ParseError::Error(m) => m@,
            },
    {
        match self {
            ParseError::Help(message) => message.as_str(),
            ParseError::Error(message) => message.as_str(),
        }
    }
}

/// The usage text.
pub fn help_text() -> (r: String)
    ensures
        r@ == help_text_spec(),
{
    owned(
        "Usage:\n  disk-maint [--root PATH] scan\n  disk-maint [--root PATH] rust\n  disk-maint [--root PATH] git status\n  disk-maint [--root PATH] clean target [--dry-run | --yes]\n\nOptions:\n  -r, --root PATH   Repository root to scan (default: ~/labs/repos)\n      --dry-run     Show the clean target plan without prompting or deleting\n      --yes         Delete planned target/ directories without prompting\n  -h, --help        Show this help",
    )
}

/// `s` with every leading repetition of `p` removed.
fn strip_all(s: &[char], p: &[char]) -> (r: Vec<char>)
    ensures
        r@ == strip_prefix_all(s@, p@),
{
    let mut lo: usize = 0;
    proof {
        assert(s@.subrange(0, s@.len() as int) == s@);
    }
    while p.len() > 0 && p.len() <= s.len() - lo && chars_start_with(
        sub_chars(s, lo, s.len()).as_slice(),
        p,
    )
        invariant
            lo <= s@.len(),
            strip_prefix_all(s@, p@) == strip_prefix_all(s@.subrange(lo as int, s@.len() as int), p@),
        decreases s@.len() - lo,
    {
        proof {
            let t = s@.subrange(lo as int, s@.len() as int);
            assert(t.subrange(p@.len() as int, t.len() as int) == s@.subrange(
                lo + p@.len(),
                s@.len() as int,
            ));
        }
        lo = lo + p.len();
    }
    proof {
        let t = s@.subrange(lo as int, s@.len() as int);
        if p@.len() > 0 && lo + p@.len() > s@.len() {
            assert(!has_prefix(t, p@));
        }
    }
    sub_chars(s, lo, s.len())
}

/// An error carrying `m`.
fn error(m: String) -> (r: ParseError)
    ensures
        r@ == ParseErrorSpec::Error(m@),
{
    ParseError::Error(m)
}

/// Parses the command line `args`, whose first element is the program name.
/// `home` is the home directory, used for the default root
/// (`~/labs/repos`) and to expand `~` in `--root`.
pub fn parse_args(args: &[String], home: Option<&str>) -> (r: Result<Cli, ParseError>)
    ensures
        parse_result_view(r) == parse_args_spec(views(args@), opt_view(home)),
{
    let ghost a = views(args@);
    let ghost h = opt_view(home);
    let mut root = default_repo_root(home);
    let mut dry_run = false;
    let mut yes = false;
    let mut positional: Vec<String> = Vec::new();
    let mut i: usize = 1;
    assert(views(positional@) =~= Seq::<Seq<char>>::empty());
    while i < args.len()
        invariant
            i >= 1,
            a == views(args@),
            h == opt_view(home),
            scan_args(a, 1, initial_state(h), h) == scan_args(
                a,
                i as int,
                ArgState { root: root@, dry_run, yes, positional: views(positional@) },
                h,
            ),
        decreases args@.len() - i,
    {
        let arg = args[i].as_str();
        assert(a[i as int] == arg@);
        if str_eq(arg, "-h") || str_eq(arg, "--help") {
            return Err(ParseError::Help(help_text()));
        } else if str_eq(arg, "--dry-run") {
            dry_run = true;
            i = i + 1;
        } else if str_eq(arg, "--yes") {
            yes = true;
            i = i + 1;
        } else if str_eq(arg, "-r") || str_eq(arg, "--root") {
            if i + 1 < args.len() {
                assert(a[i + 1] == args@[i + 1]@);
                root = expand_home(args[i + 1].as_str(), home);
                i = i + 2;
            } else {
                return Err(error(owned("missing value for --root")));
            }
        } else {
            let v = chars_of(arg);
            let prefix = chars_of("--root=");
            if chars_start_with(v.as_slice(), prefix.as_slice()) {
                let value = strip_all(v.as_slice(), prefix.as_slice());
                let value = string_of(value.as_slice());
                root = expand_home(value.as_str(), home);
                i = i + 1;
            } else if v.len() > 0 && v[0] == '-' {
                let mut m = owned("unknown option: ");
                push_str(&mut m, arg);
                push_str(&mut m, "\n\n");
                let help = help_text();
                push_str(&mut m, help.as_str());
                return Err(error(m));
            } else {
                let ghost before = positional@;
                positional.push(args[i].clone());
                assert(views(positional@) == views(before).push(arg@));
                i = i + 1;
            }
        }
    }
    let ghost st = ArgState { root: root@, dry_run, yes, positional: views(positional@) };
    assert(scan_args(a, i as int, st, h) == Ok::<ArgState, ParseErrorSpec>(st));
    let n = positional.len();
    assert(views(positional@).len() == n);
    let is = |k: usize, word: &str| -> (r: bool)
        requires
            k < positional@.len(),
        ensures
            r == (views(positional@)[k as int] == word@),
        { str_eq(positional[k].as_str(), word) };
    let command = if n == 1 && is(0, "scan") {
        Command::Scan
    } else if n == 1 && is(0, "rust") {
        Command::Rust
    } else if n == 2 && is(0, "git") && is(1, "status") {
        Command::Git(GitCommand::Status)
    } else if n == 2 && is(0, "clean") && is(1, "target") {
        if dry_run && yes {
            return Err(error(owned("--dry-run cannot be used with --yes")));
        }
        Command::Clean(CleanCommand::Target(CleanTargetOptions { dry_run, yes }))
    } else if n == 2 && is(0, "clean") && is(1, "shared") {
        if dry_run {
            return Err(error(owned("--dry-run is only valid with `clean target`")));
        }
        Command::Clean(CleanCommand::Shared(CleanSharedOptions { yes }))
    } else if n == 0 {
        return Err(ParseError::Help(help_text()));
    } else {
        let mut m = owned("unknown command: ");
        let joined = join_strings(positional.as_slice(), " ");
        push_str(&mut m, joined.as_str());
        push_str(&mut m, "\n\n");
        let help = help_text();
        push_str(&mut m, help.as_str());
        return Err(error(m));
    };
    let plain = match command {
        Command::Clean(_) => false,
        _ => true,
    };
    if plain && (dry_run || yes) {
        return Err(error(owned("--dry-run and --yes are only valid with `clean target`")));
    }
    Ok(Cli { root, command })
}

/// Whether an argument is a plain word: it does not start with `-`.
pub open spec fn is_plain_word(a: Seq<char>) -> bool {
    !(a.len() > 0 && a[0] == '-')
}

proof fn lemma_help_reached(
    args: Seq<Seq<char>>,
    i: int,
    k: int,
    st: ArgState,
    home: Option<Seq<char>>,
)
    requires
        0 <= i <= k < args.len(),
        args[k] == "-h"@ || args[k] == "--help"@,
        forall|j: int| i <= j < k ==> is_plain_word(#[trigger] args[j]),
    ensures
        scan_args(args, i, st, home) == Err::<ArgState, ParseErrorSpec>(
            ParseErrorSpec::Help(help_text_spec()),
        ),
    decreases k - i,
{
    if i < k {
        let a = args[i];
        assert(is_plain_word(a));
        reveal_strlit("-h");
        reveal_strlit("--help");
        reveal_strlit("--dry-run");
        reveal_strlit("--yes");
        reveal_strlit("-r");
        reveal_strlit("--root");
        reveal_strlit("--root=");
        assert(a != "-h"@ && a != "--help"@ && a != "--dry-run"@ && a != "--yes"@ && a != "-r"@
            && a != "--root"@) by {
            if a.len() > 0 {
                assert(a[0] != '-');
            }
        }
        assert(!has_prefix(a, "--root="@)) by {
            if has_prefix(a, "--root="@) {
                assert(a.subrange(0, 7)[0] == "--root="@[0]);
            }
        }
        lemma_help_reached(
            args,
            i + 1,
            k,
            ArgState {
                root: st.root,
                dry_run: st.dry_run,
                yes: st.yes,
                positional: st.positional.push(a),
            },
            home,
        );
    }
}

/// `-h` and `--help` ask for help: wherever one of them stands among the
/// arguments, when only plain words come before it, the parse ends with
/// the help text, whatever else follows; in particular `-h` and `--help`
/// alone give the same answer.
pub proof fn lemma_help_flags(args: Seq<Seq<char>>, k: int, home: Option<Seq<char>>)
    requires
        1 <= k < args.len(),
        args[k] == "-h"@ || args[k] == "--help"@,
        forall|j: int| 1 <= j < k ==> is_plain_word(#[trigger] args[j]),
    ensures
        parse_args_spec(args, home) == Err::<CliSpec, ParseErrorSpec>(
            ParseErrorSpec::Help(help_text_spec()),
        ),
        parse_args_spec(args.update(k, "-h"@), home) == parse_args_spec(
            args.update(k, "--help"@),
            home,
        ),
{
    lemma_help_reached(args, 1, k, initial_state(home), home);
    let a1 = args.update(k, "-h"@);
    let a2 = args.update(k, "--help"@);
    assert forall|j: int| 1 <= j < k implies is_plain_word(#[trigger] a1[j]) by {
        assert(a1[j] == args[j]);
    }
    assert forall|j: int| 1 <= j < k implies is_plain_word(#[trigger] a2[j]) by {
        assert(a2[j] == args[j]);
    }
    lemma_help_reached(a1, 1, k, initial_state(home), home);
    lemma_help_reached(a2, 1, k, initial_state(home), home);
}

} // verus!
