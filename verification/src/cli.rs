//! The command line: its arguments, and the decisions the command makes
//! from them (which format, which findings fail `--check`).
//!
//! Arguments are given as `Option<String>`: `None` for one that is not
//! valid Unicode. Paths are kept as positions in the argument list, so that
//! a path that is not valid Unicode is still passed on unchanged.
use vstd::prelude::*;

use crate::analysis::{
    builtin, opt_text, parse_severity, severity_at_least, severity_rank, Finding,
    FindingKind, FindingView, Severity, Suggestions,
};
use crate::collections::str_eq;
use crate::error::Error;
use crate::report::{OutputFormat, ReportOptions};
use crate::text::{owned, push_str};
use crate::util::{crate_match, crate_matches};

verus! {

/// The parsed command line.
#[derive(Debug)]
pub struct Cli {
    /// Position in the argument list of the `--output` path.
    pub output: Option<usize>,
    pub unused: bool,
    pub bloat: bool,
    pub crate_filter: Option<String>,
    /// Position in the argument list of the `--manifest-path` value; `None`
    /// for the current directory.
    pub manifest_path: Option<usize>,
    pub format: Option<OutputFormat>,
    pub check: bool,
    pub fail_on: Severity,
    pub min_severity: Option<Severity>,
    pub remote: bool,
    pub crate_version: Option<String>,
    /// `-h` or `--help` was given: print the usage and stop.
    pub help: bool,
}

/// What a parsed command line says.
pub struct CliView {
    pub output: Option<nat>,
    pub unused: bool,
    pub bloat: bool,
    pub crate_filter: Option<Seq<char>>,
    pub manifest_path: Option<nat>,
    pub format: Option<OutputFormat>,
    pub check: bool,
    pub fail_on: Severity,
    pub min_severity: Option<Severity>,
    pub remote: bool,
    pub crate_version: Option<Seq<char>>,
    pub help: bool,
}

pub open spec fn opt_pos(o: Option<usize>) -> Option<nat> {
    match o {
        Some(i) => Some(i as nat),
        None => None,
    }
}

impl View for Cli {
    type V = CliView;

    open spec fn view(&self) -> CliView {
        CliView {
            output: opt_pos(self.output),
            unused: self.unused,
            bloat: self.bloat,
            crate_filter: opt_text(self.crate_filter),
            manifest_path: opt_pos(self.manifest_path),
            format: self.format,
            check: self.check,
            fail_on: self.fail_on,
            min_severity: self.min_severity,
            remote: self.remote,
            crate_version: opt_text(self.crate_version),
            help: self.help,
        }
    }
}

/// The command line before any argument.
pub open spec fn initial_cli() -> CliView {
    CliView {
        output: None,
        unused: false,
        bloat: false,
        crate_filter: None,
        manifest_path: None,
        format: None,
        check: false,
        fail_on: Severity::Warning,
        min_severity: None,
        remote: false,
        crate_version: None,
        help: false,
    }
}

/// The views of the arguments.
pub open spec fn arg_views(args: Seq<Option<String>>) -> Seq<Option<Seq<char>>> {
    args.map_values(|a: Option<String>| opt_text(a))
}

/// The argument after position `i`, if there is one and it is valid Unicode.
pub open spec fn next_text(args: Seq<Option<Seq<char>>>, i: int) -> Option<Seq<char>> {
    if i + 1 < args.len() {
        args[i + 1]
    } else {
        None
    }
}

/// The output format of a `--format` value.
pub open spec fn format_named(v: Seq<char>) -> Option<OutputFormat> {
    if v == "terminal"@ {
        Some(OutputFormat::Terminal)
    } else if v == "markdown"@ {
        Some(OutputFormat::Markdown)
    } else if v == "json"@ {
        Some(OutputFormat::Json)
    } else if v == "dot"@ {
        Some(OutputFormat::Dot)
    } else if v == "mermaid"@ {
        Some(OutputFormat::Mermaid)
    } else {
        None
    }
}

/// The command line that the arguments from position `i` on make of `c`,
/// or the message of the error they give. Arguments that are not valid
/// Unicode are passed over, except as the value of an option.
pub open spec fn parse_from(args: Seq<Option<Seq<char>>>, i: int, c: CliView) -> Result<CliView, Seq<char>>
    decreases args.len() - i,
{
    if i < 0 || i >= args.len() {
        Ok(c)
    } else {
        match args[i] {
            None => parse_from(args, i + 1, c),
            Some(a) => if a == "-o"@ || a == "--output"@ {
                if i + 1 < args.len() {
                    parse_from(args, i + 2, CliView { output: Some((i + 1) as nat), ..c })
                } else {
                    Err("--output requires a file path"@)
                }
            } else if a == "--unused"@ {
                parse_from(args, i + 1, CliView { unused: true, ..c })
            } else if a == "--bloat"@ {
                parse_from(args, i + 1, CliView { bloat: true, ..c })
            } else if a == "--crate"@ {
                match next_text(args, i) {
                    Some(v) => parse_from(args, i + 2, CliView { crate_filter: Some(v), ..c }),
                    None => Err("--crate requires a crate name"@),
                }
            } else if a == "--manifest-path"@ {
                if i + 1 < args.len() {
                    parse_from(args, i + 2, CliView { manifest_path: Some((i + 1) as nat), ..c })
                } else {
                    parse_from(args, i + 1, c)
                }
            } else if a == "--check"@ {
                parse_from(args, i + 1, CliView { check: true, ..c })
            } else if a == "--remote"@ {
                parse_from(args, i + 1, CliView { remote: true, ..c })
            } else if a == "--fail-on"@ {
                match next_text(args, i) {
                    Some(v) => match parse_severity(v) {
                        Some(s) => parse_from(args, i + 2, CliView { fail_on: s, ..c }),
                        None => Err("unsupported severity `"@ + v + "`"@),
                    },
                    None => Err("--fail-on requires one of: info, warning, error"@),
                }
            } else if a == "--min-severity"@ {
                match next_text(args, i) {
                    Some(v) => match parse_severity(v) {
                        Some(s) => parse_from(args, i + 2, CliView { min_severity: Some(s), ..c }),
                        None => Err("unsupported severity `"@ + v + "`"@),
                    },
                    None => Err("--min-severity requires one of: info, warning, error"@),
                }
            } else if a == "--crate-version"@ {
                match next_text(args, i) {
                    Some(v) => parse_from(args, i + 2, CliView { crate_version: Some(v), ..c }),
                    None => Err("--crate-version requires a version requirement"@),
                }
            } else if a == "--format"@ {
                match next_text(args, i) {
                    Some(v) => match format_named(v) {
                        Some(f) => parse_from(args, i + 2, CliView { format: Some(f), ..c }),
                        None => Err("unsupported output format `"@ + v + "`"@),
                    },
                    None => Err("--format requires one of: terminal, markdown, json, dot, mermaid"@),
                }
            } else if a == "-h"@ || a == "--help"@ {
                Ok(CliView { help: true, ..c })
            } else {
                Err("unknown argument `"@ + a + "`"@)
            },
        }
    }
}

/// The argument after position `i` as text, if there is one and it is
/// valid Unicode.
fn next_text_exec(args: &Vec<Option<String>>, i: usize) -> (r: Option<String>)
    requires
        i < args.len(),
    ensures
        opt_text(r) == next_text(arg_views(args@), i as int),
{
    if i + 1 < args.len() {
        match &args[i + 1] {
            Some(v) => Some(v.clone()),
            None => None,
        }
    } else {
        None
    }
}

/// The output format of a `--format` value.
fn format_named_exec(v: &str) -> (r: Option<OutputFormat>)
    ensures
        r == format_named(v@),
{
    if str_eq(v, "terminal") {
        Some(OutputFormat::Terminal)
    } else if str_eq(v, "markdown") {
        Some(OutputFormat::Markdown)
    } else if str_eq(v, "json") {
        Some(OutputFormat::Json)
    } else if str_eq(v, "dot") {
        Some(OutputFormat::Dot)
    } else if str_eq(v, "mermaid") {
        Some(OutputFormat::Mermaid)
    } else {
        None
    }
}

/// An error whose message is `a`, then `v`, then `b`.
fn message_error(a: &str, v: &str, b: &str) -> (r: Error)
    ensures
        r matches Error::Other(s) && s@ == a@ + v@ + b@,
{
    let mut m = owned(a);
    push_str(&mut m, v);
    push_str(&mut m, b);
    Error::Other(m)
}

impl Cli {
    /// Parses the command line. The first argument is the program's name.
    pub fn parse(args: &Vec<Option<String>>) -> (r: Result<Cli, Error>)
        ensures
            match parse_from(arg_views(args@), 1, initial_cli()) {
                Ok(v) => r matches Ok(c) && c@ == v,
                Err(m) => r matches Err(Error::Other(s)) && s@ == m,
            },
    {
        let ghost av = arg_views(args@);
        let mut cli = Cli {
            output: None,
            unused: false,
            bloat: false,
            crate_filter: None,
            manifest_path: None,
            format: None,
            check: false,
            fail_on: Severity::Warning,
            min_severity: None,
            remote: false,
            crate_version: None,
            help: false,
        };
        let mut i: usize = 1;
        while i < args.len()
            invariant
                1 <= i,
                av == arg_views(args@),
                parse_from(av, i as int, cli@) == parse_from(av, 1, initial_cli()),
            decreases args.len() - i,
        {
            let ghost before = cli@;
            let arg = match &args[i] {
                Some(a) => a.as_str(),
                None => {
                    i = i + 1;
                    continue;
                },
            };
            assert(av[i as int] == Some(arg@));
            if str_eq(arg, "-o") || str_eq(arg, "--output") {
                if i + 1 < args.len() {
                    cli.output = Some(i + 1);
                    i = i + 2;
                } else {
                    return Err(Error::Other(owned("--output requires a file path")));
                }
            } else if str_eq(arg, "--unused") {
                cli.unused = true;
                i = i + 1;
            } else if str_eq(arg, "--bloat") {
                cli.bloat = true;
                i = i + 1;
            } else if str_eq(arg, "--crate") {
                match next_text_exec(args, i) {
                    Some(v) => {
                        cli.crate_filter = Some(v);
                        i = i + 2;
                    },
                    None => {
                        return Err(Error::Other(owned("--crate requires a crate name")));
                    },
                }
            } else if str_eq(arg, "--manifest-path") {
                if i + 1 < args.len() {
                    cli.manifest_path = Some(i + 1);
                    i = i + 2;
                } else {
                    i = i + 1;
                }
            } else if str_eq(arg, "--check") {
                cli.check = true;
                i = i + 1;
            } else if str_eq(arg, "--remote") {
                cli.remote = true;
                i = i + 1;
            } else if str_eq(arg, "--fail-on") {
                match next_text_exec(args, i) {
                    Some(v) => match Severity::parse(v.as_str()) {
                        Some(s) => {
                            cli.fail_on = s;
                            i = i + 2;
                        },
                        None => {
                            return Err(message_error("unsupported severity `", v.as_str(), "`"));
                        },
                    },
                    None => {
                        return Err(
                            Error::Other(owned("--fail-on requires one of: info, warning, error")),
                        );
                    },
                }
            } else if str_eq(arg, "--min-severity") {
                match next_text_exec(args, i) {
                    Some(v) => match Severity::parse(v.as_str()) {
                        Some(s) => {
                            cli.min_severity = Some(s);
                            i = i + 2;
                        },
                        None => {
                            return Err(message_error("unsupported severity `", v.as_str(), "`"));
                        },
                    },
                    None => {
                        return Err(
                            Error::Other(
                                owned("--min-severity requires one of: info, warning, error"),
                            ),
                        );
                    },
                }
            } else if str_eq(arg, "--crate-version") {
                match next_text_exec(args, i) {
                    Some(v) => {
                        cli.crate_version = Some(v);
                        i = i + 2;
                    },
                    None => {
                        return Err(
                            Error::Other(owned("--crate-version requires a version requirement")),
                        );
                    },
                }
            } else if str_eq(arg, "--format") {
                match next_text_exec(args, i) {
                    Some(v) => match format_named_exec(v.as_str()) {
                        Some(f) => {
                            cli.format = Some(f);
                            i = i + 2;
                        },
                        None => {
                            return Err(
                                message_error("unsupported output format `", v.as_str(), "`"),
                            );
                        },
                    },
                    None => {
                        return Err(
                            Error::Other(
                                owned(
                                    "--format requires one of: terminal, markdown, json, dot, mermaid",
                                ),
                            ),
                        );
                    },
                }
            } else if str_eq(arg, "-h") || str_eq(arg, "--help") {
                cli.help = true;
                return Ok(cli);
            } else {
                return Err(message_error("unknown argument `", arg, "`"));
            }
        }
        Ok(cli)
    }
}

/// A finding kind passes the `--unused` and `--bloat` selections.
pub open spec fn kind_passes(kind: FindingKind, c: CliView) -> bool {
    (!c.unused || kind == FindingKind::Unused) && (!c.bloat || kind == FindingKind::Bloat)
}

/// A finding makes `--check` fail: severe enough, of a selected kind, and
/// about a crate that the filter selects (any crate in remote analysis).
pub open spec fn fails_check(f: FindingView, c: CliView, remote_analysis: bool) -> bool {
    &&& severity_rank(f.severity) >= severity_rank(c.fail_on)
    &&& kind_passes(f.kind, c)
    &&& (remote_analysis || crate_match(f.crate_name, c.crate_filter))
}

/// Whether a finding kind passes the `--unused` and `--bloat` selections.
pub fn kind_selected(kind: FindingKind, cli: &Cli) -> (r: bool)
    ensures
        r == kind_passes(kind, cli@),
{
    (!cli.unused || kind == FindingKind::Unused) && (!cli.bloat || kind == FindingKind::Bloat)
}

/// Whether any finding makes `--check` fail.
pub fn has_failing_findings(findings: &[Finding], cli: &Cli, remote_analysis: bool) -> (r: bool)
    ensures
        r == exists|i: int|
            0 <= i < findings@.len() && fails_check(#[trigger] findings@[i]@, cli@, remote_analysis),
{
    let filter = match &cli.crate_filter {
        Some(f) => Some(f.as_str()),
        None => None,
    };
    let mut i: usize = 0;
    while i < findings.len()
        invariant
            i <= findings@.len(),
            crate::util::opt_view(filter) == cli@.crate_filter,
            forall|k: int| 0 <= k < i ==> !fails_check(#[trigger] findings@[k]@, cli@, remote_analysis),
        decreases findings.len() - i,
    {
        let f = &findings[i];
        if severity_at_least(f.severity, cli.fail_on) && kind_selected(f.kind, cli) && (remote_analysis
            || crate_matches(f.crate_name.as_str(), filter)) {
            assert(fails_check(findings@[i as int]@, cli@, remote_analysis));
            return true;
        }
        i = i + 1;
    }
    false
}

/// Remote analysis runs when asked for, or when a crate is named, the
/// manifest path is the current directory and that holds no `Cargo.toml`.
pub fn is_remote_analysis(cli: &Cli, manifest_is_current_dir: bool, cargo_toml_exists: bool) -> (r: bool)
    ensures
        r == (cli.remote || (cli.crate_filter is Some && manifest_is_current_dir && !cargo_toml_exists)),
{
    cli.remote || (cli.crate_filter.is_some() && manifest_is_current_dir && !cargo_toml_exists)
}

/// The report options of a run: the requested format, else Markdown when
/// writing to a file and the terminal report otherwise; no crate filter in
/// remote analysis.
pub fn report_options(cli: &Cli, remote_analysis: bool) -> (r: ReportOptions)
    ensures
        r.format == match cli.format {
            Some(f) => f,
            None => if cli.output is Some {
                OutputFormat::Markdown
            } else {
                OutputFormat::Terminal
            },
        },
        r.only_unused == cli.unused,
        r.only_bloat == cli.bloat,
        opt_text(r.crate_filter) == if remote_analysis {
            None
        } else {
            cli@.crate_filter
        },
        r.min_severity == cli.min_severity,
{
    let format = match cli.format {
        Some(f) => f,
        None => if cli.output.is_some() {
            OutputFormat::Markdown
        } else {
            OutputFormat::Terminal
        },
    };
    let crate_filter = if remote_analysis {
        None
    } else {
        match &cli.crate_filter {
            Some(f) => Some(f.clone()),
            None => None,
        }
    };
    ReportOptions {
        format,
        only_unused: cli.unused,
        only_bloat: cli.bloat,
        crate_filter,
        min_severity: cli.min_severity,
    }
}

/// The arguments without the `feature-lens` that Cargo passes when the
/// tool runs as `cargo feature-lens`.
pub fn strip_subcommand(args: Vec<Option<String>>) -> (r: Vec<Option<String>>)
    ensures
        r@ == if args@.len() > 1 && opt_text(args@[1]) == Some("feature-lens"@) {
            args@.remove(1)
        } else {
            args@
        },
{
    let mut args = args;
    if args.len() > 1 {
        let is_subcommand = match &args[1] {
            Some(a) => str_eq(a.as_str(), "feature-lens"),
            None => false,
        };
        if is_subcommand {
            args.remove(1);
        }
    }
    args
}

/// The built-in suggestion database.
pub fn load_builtin_suggestions() -> (r: Result<Suggestions, Error>)
    ensures
        r matches Ok(s) && builtin::loaded(s),
{
    Ok(builtin::load())
}

} // verus!
