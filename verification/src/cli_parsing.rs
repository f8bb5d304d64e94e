//! The choices the command line makes: which diagnostics to report and in
//! which output format.

use vstd::prelude::*;

verus! {

/// The names of the kinds of diagnostic, as the command line gives them.
#[derive(Clone, Copy, Debug, PartialEq, Eq, Structural, PartialOrd, Ord)]
pub enum DiagnosticName {
    /// Link url is empty.
    Empty,
    /// External link is invalid.
    InvalidExternalLink,
    /// Link points to .md (instead of .html).
    Md,
    /// The pointed-to file does not exist.
    Nonexistant,
    /// Relative link points to a path outside of the root.
    OutsideRoot,
    /// Document is unreachable from the root. That is, there are no paths of links
    /// that reaches this document, when starting from the root.
    Unreachable,
}

/// The text of each diagnostic name.
pub open spec fn diagnostic_name_str(d: DiagnosticName) -> Seq<char> {
    match d {
        DiagnosticName::Empty => "empty"@,
        DiagnosticName::Nonexistant => "nonexistant"@,
        DiagnosticName::Md => "md"@,
        DiagnosticName::OutsideRoot => "outside-root"@,
        DiagnosticName::InvalidExternalLink => "external-link-error"@,
        DiagnosticName::Unreachable => "unreachable"@,
    }
}

impl DiagnosticName {
    /// The text of this name; it is the same as the type name of the
    /// corresponding kind of diagnostic.
    pub fn as_str(&self) -> (res: &'static str)
        ensures
            res@ == diagnostic_name_str(*self),
    {
        match self {
            DiagnosticName::Empty => "empty",
            DiagnosticName::Nonexistant => "nonexistant",
            DiagnosticName::Md => "md",
            DiagnosticName::OutsideRoot => "outside-root",
            DiagnosticName::InvalidExternalLink => "external-link-error",
            DiagnosticName::Unreachable => "unreachable",
        }
    }
}

/// The ways diagnostics can be written out.
#[derive(Clone, Copy, Debug, PartialEq, Eq, Structural, PartialOrd, Ord)]
pub enum OutputFormat {
    /// One diagnostic per line, more compact representation
    Oneline,
    /// The multi line format
    Multiline,
    /// Turn diagnostics into a miette report, and output them as fancy output
    Fancy,
    /// One diagnostic per line, json-encoded object.
    Json,
}

/// The text of each output format.
pub open spec fn output_format_str(f: OutputFormat) -> Seq<char> {
    match f {
        OutputFormat::Oneline => "oneline"@,
        OutputFormat::Multiline => "multiline"@,
        OutputFormat::Fancy => "fancy"@,
        OutputFormat::Json => "json"@,
    }
}

impl OutputFormat {
    /// The text of this format, as it is displayed.
    pub fn as_str(&self) -> (res: &'static str)
        ensures
            res@ == output_format_str(*self),
    {
        match self {
            OutputFormat::Oneline => "oneline",
            OutputFormat::Multiline => "multiline",
            OutputFormat::Fancy => "fancy",
            OutputFormat::Json => "json",
        }
    }
}

/// The diagnostics reported when the command line names none.
pub open spec fn all_diagnostics_spec() -> Seq<DiagnosticName> {
    seq![
        DiagnosticName::Empty,
        DiagnosticName::InvalidExternalLink,
        DiagnosticName::Md,
        DiagnosticName::Nonexistant,
        DiagnosticName::OutsideRoot,
    ]
}

/// The diagnostics reported when the command line names none: every kind
/// that is checked for.
pub fn all_diagnostics() -> (res: Vec<DiagnosticName>)
    ensures
        res@ == all_diagnostics_spec(),
{
    let mut v = Vec::new();
    v.push(DiagnosticName::Empty);
    v.push(DiagnosticName::InvalidExternalLink);
    v.push(DiagnosticName::Md);
    v.push(DiagnosticName::Nonexistant);
    v.push(DiagnosticName::OutsideRoot);
    assert(v@ =~= all_diagnostics_spec());
    v
}

/// The format flags of the command line; at most one of them is given.
pub struct FormatArgs {
    /// `--json`
    pub json: bool,
    /// `--oneline`
    pub oneline: bool,
    /// `--fancy`
    pub fancy: bool,
    /// `--multiline`
    pub multiline: bool,
    /// `--format FORMAT`
    pub format: Option<OutputFormat>,
}

/// The command line, as the argument parser read it.
pub struct CliArgs {
    /// The file to check, or directory to scan.
    pub path: String,
    /// `--verbose`
    pub verbose: bool,
    /// The format flags, when any of them was given.
    pub format: Option<FormatArgs>,
    /// `--no-gitignore`
    pub no_gitignore: bool,
    /// The diagnostics turned off with `--no-diag`.
    pub no_diag: Vec<DiagnosticName>,
    /// The diagnostics turned on with `--diag`.
    pub diag: Vec<DiagnosticName>,
}

/// `s` without the elements that `excluded` contains, in order.
pub open spec fn without(s: Seq<DiagnosticName>, excluded: Seq<DiagnosticName>) -> Seq<DiagnosticName>
    decreases s.len(),
{
    if s.len() == 0 {
        s
    } else {
        let r = without(s.drop_last(), excluded);
        if excluded.contains(s.last()) {
            r
        } else {
            r.push(s.last())
        }
    }
}

/// The diagnostics to report: all of them when neither list is given,
/// those of `--diag` when it is given, and all but those of `--no-diag`
/// when that is given.
pub open spec fn chosen_diagnostics(diag: Seq<DiagnosticName>, no_diag: Seq<DiagnosticName>) -> Seq<DiagnosticName> {
    if diag.len() == 0 && no_diag.len() == 0 {
        all_diagnostics_spec()
    } else if no_diag.len() == 0 {
        diag
    } else {
        without(all_diagnostics_spec(), no_diag)
    }
}

/// The output format: the one of `--format` when given, else the one of
/// the flag that was given, else multi line.
pub open spec fn chosen_format(format: Option<FormatArgs>) -> OutputFormat {
    match format {
        Some(f) => match f.format {
            Some(g) => g,
            None => if f.multiline {
                OutputFormat::Multiline
            } else if f.oneline {
                OutputFormat::Oneline
            } else if f.json {
                OutputFormat::Json
            } else {
                OutputFormat::Fancy
            },
        },
        None => OutputFormat::Multiline,
    }
}

fn contains_name(v: &Vec<DiagnosticName>, d: DiagnosticName) -> (res: bool)
    ensures
        res == v@.contains(d),
{
    let mut i: usize = 0;
    while i < v.len()
        invariant
            i <= v@.len(),
            forall|j: int| 0 <= j < i ==> v@[j] != d,
        decreases v@.len() - i,
    {
        if v[i] == d {
            return true;
        }
        i = i + 1;
    }
    false
}

fn copy_names(v: &Vec<DiagnosticName>) -> (res: Vec<DiagnosticName>)
    ensures
        res@ == v@,
{
    let mut out = Vec::new();
    let mut i: usize = 0;
    while i < v.len()
        invariant
            i <= v@.len(),
            out@ == v@.take(i as int),
        decreases v@.len() - i,
    {
        out.push(v[i]);
        i = i + 1;
        assert(out@ =~= v@.take(i as int));
    }
    assert(v@.take(v@.len() as int) =~= v@);
    out
}

/// Turns the command line into the path to check, whether to ignore
/// `.gitignore` files, whether to be verbose, the output format and the
/// diagnostics to report.
///
/// The argument parser lets at most one of `--diag` and `--no-diag` through,
/// and gives the format flags only when one of them was set.
pub fn parse_cli_args(args: CliArgs) -> (res: (String, bool, bool, OutputFormat, Vec<DiagnosticName>))
    requires
        args.diag@.len() == 0 || args.no_diag@.len() == 0,
        args.format matches Some(f) ==> (f.format is Some || f.multiline || f.oneline || f.json || f.fancy),
    ensures
        res.0@ == args.path@,
        res.1 == args.no_gitignore,
        res.2 == args.verbose,
        res.3 == chosen_format(args.format),
        res.4@ == chosen_diagnostics(args.diag@, args.no_diag@),
{
    let diags = if args.diag.len() == 0 && args.no_diag.len() == 0 {
        all_diagnostics()
    } else if args.no_diag.len() == 0 {
        copy_names(&args.diag)
    } else {
        let all = all_diagnostics();
        let mut out: Vec<DiagnosticName> = Vec::new();
        let mut i: usize = 0;
        while i < all.len()
            invariant
                all@ == all_diagnostics_spec(),
                i <= all@.len(),
                out@ == without(all@.take(i as int), args.no_diag@),
            decreases all@.len() - i,
        {
            assert(all@.take(i + 1).drop_last() =~= all@.take(i as int));
            if !contains_name(&args.no_diag, all[i]) {
                out.push(all[i]);
            }
            i = i + 1;
        }
        assert(all@.take(all@.len() as int) =~= all@);
        out
    };
    let format = match &args.format {
        Some(f) => {
            match f.format {
                Some(g) => g,
                None => {
                    if f.multiline {
                        OutputFormat::Multiline
                    } else if f.oneline {
                        OutputFormat::Oneline
                    } else if f.json {
                        OutputFormat::Json
                    } else {
                        OutputFormat::Fancy
                    }
                },
            }
        },
        None => OutputFormat::Multiline,
    };
    (args.path, args.no_gitignore, args.verbose, format, diags)
}


/// With `--no-diag`, a diagnostic is reported exactly when it is one of
/// those checked for and not among the ones turned off.
pub proof fn law_no_diag_excludes(diag: Seq<DiagnosticName>, no_diag: Seq<DiagnosticName>, d: DiagnosticName)
    requires
        diag.len() == 0,
        no_diag.len() > 0,
    ensures
        chosen_diagnostics(diag, no_diag).contains(d) <==> (all_diagnostics_spec().contains(d) && !no_diag.contains(d)),
{
    lemma_without(all_diagnostics_spec(), no_diag, d);
}

/// An element is kept by `without` exactly when it is in the sequence and
/// not excluded.
pub proof fn lemma_without(s: Seq<DiagnosticName>, excluded: Seq<DiagnosticName>, d: DiagnosticName)
    ensures
        without(s, excluded).contains(d) <==> (s.contains(d) && !excluded.contains(d)),
    decreases s.len(),
{
    if s.len() > 0 {
        let r = s.drop_last();
        lemma_without(r, excluded, d);
        let w = without(s, excluded);
        if s.contains(d) && !excluded.contains(d) {
            let i = choose|i: int| 0 <= i < s.len() && s[i] == d;
            if i < s.len() - 1 {
                assert(r[i] == d);
                let j = choose|j: int| 0 <= j < without(r, excluded).len() && without(r, excluded)[j] == d;
                if !excluded.contains(s.last()) {
                    assert(w[j] == d);
                }
            } else {
                assert(w[w.len() - 1] == d);
            }
        }
        if w.contains(d) {
            let j = choose|j: int| 0 <= j < w.len() && w[j] == d;
            if excluded.contains(s.last()) || j < w.len() - 1 {
                assert(without(r, excluded)[j] == d);
                let i = choose|i: int| 0 <= i < r.len() && r[i] == d;
                assert(s[i] == d);
            } else {
                assert(s[s.len() - 1] == d);
            }
        }
    }
}


/// The output format given with `--format FORMAT` is the one chosen,
/// whichever of the formats it is; without any format flag the format is
/// multi line, and a single flag chooses its own format.
pub proof fn law_format_choice(f: FormatArgs)
    ensures
        f.format matches Some(g) ==> chosen_format(Some(f)) == g,
        chosen_format(None) == OutputFormat::Multiline,
        f.format is None && f.json && !f.oneline && !f.fancy && !f.multiline ==> chosen_format(Some(f)) == OutputFormat::Json,
        f.format is None && f.oneline && !f.json && !f.fancy && !f.multiline ==> chosen_format(Some(f)) == OutputFormat::Oneline,
        f.format is None && f.fancy && !f.json && !f.oneline && !f.multiline ==> chosen_format(Some(f)) == OutputFormat::Fancy,
        f.format is None && f.multiline && !f.json && !f.oneline && !f.fancy ==> chosen_format(Some(f)) == OutputFormat::Multiline,
{
}

} // verus!
