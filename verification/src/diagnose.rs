//! Deciding, for each link of a file, which diagnostic it has, if any.

use vstd::prelude::*;
use crate::cli_parsing::{diagnostic_name_str, DiagnosticName};
use crate::diagnostic::{kind_name, kind_name_text, Diagnostic, DiagnosticKind, DiagnosticKindV, DiagnosticV};
use crate::file::{File, MdLink, MdLinkV};
use crate::link::{internal_link_ok, internal_link_url, parse_external_link, try_parse_internal_link, url_parse_result};
use crate::path_extras::{
    extension, is_prefix_of, name_stem, path_components, path_extension, path_file_name, path_starts_with, path_strip_prefix,
    path_with_extension, render_components, std_with_extension, strip_components,
};
use crate::text::{copy_str, str_eq, trim, trim_str};
use crate::url_error::{url_error_of_name, UrlError};

verus! {

/// What is known of a link once its target is resolved, short of whether
/// the target exists.
pub enum LinkCheck {
    /// The link is fine.
    Fine,
    /// The link has this diagnostic.
    Found(Diagnostic),
    /// The link is fine if the file at `path` exists; otherwise it has
    /// `if_missing`.
    IfMissing { path: String, if_missing: Diagnostic },
}

/// The mathematical value of a [`LinkCheck`].
pub enum LinkCheckV {
    Fine,
    Found(DiagnosticV),
    IfMissing { path: Seq<char>, if_missing: DiagnosticV },
}

impl View for LinkCheck {
    type V = LinkCheckV;

    open spec fn view(&self) -> LinkCheckV {
        match self {
            LinkCheck::Fine => LinkCheckV::Fine,
            LinkCheck::Found(d) => LinkCheckV::Found(d@),
            LinkCheck::IfMissing { path, if_missing } => LinkCheckV::IfMissing { path: path@, if_missing: if_missing@ },
        }
    }
}

/// The diagnostic of a link with the given kind, for the file `rel_file`.
pub open spec fn link_diagnostic(rel_file: Seq<char>, url: Seq<char>, link: MdLinkV, kind: DiagnosticKindV) -> DiagnosticV {
    DiagnosticV {
        kind,
        file: rel_file,
        url,
        lineno: link.lineno,
        colno: link.colno,
        endlineno: link.endlineno,
        endcolno: link.endcolno,
    }
}

/// The check of an internal link whose `file:` URL resolved to the path `r`:
/// a link to a .md file, a link outside of the root, or a link whose target
/// must exist (a .html target stands for the .md file it is made from).
pub open spec fn resolved_check(root: Seq<char>, rel_file: Seq<char>, url: Seq<char>, link: MdLinkV, r: Seq<char>) -> LinkCheckV {
    if path_extension(r) == Some("md"@) {
        LinkCheckV::Found(link_diagnostic(rel_file, url, link, DiagnosticKindV::Md { resolved_path: r }))
    } else if !is_prefix_of(path_components(root), path_components(r)) {
        LinkCheckV::Found(link_diagnostic(rel_file, url, link, DiagnosticKindV::OutsideRoot))
    } else {
        let target = if path_extension(r) == Some("html"@) { std_with_extension(r, "md"@) } else { r };
        LinkCheckV::IfMissing {
            path: target,
            if_missing: link_diagnostic(rel_file, url, link, DiagnosticKindV::Nonexistant { resolved_path: target }),
        }
    }
}

/// The text a diagnostic shows for a link: its title, or `<bare link>`.
pub open spec fn shown_text(link: MdLinkV) -> Seq<char> {
    match link.title {
        Some(t) => t,
        None => "<bare link>"@,
    }
}

/// The check of a link of the file `file` (known in the site as
/// `rel_file`), in the site rooted at `root`: an empty link (after trimming
/// whitespace) has an `Empty` diagnostic; a link that parses as an external
/// URL is fine; one that fails to parse for another reason than being
/// relative has an `InvalidExternalLink` diagnostic; a relative link is
/// resolved as a `file:` URL and checked by [`resolved_check`]. `None` where
/// the relative link cannot be resolved to a local file path.
pub open spec fn link_check(file: Seq<char>, root: Seq<char>, rel_file: Seq<char>, link: MdLinkV) -> Option<LinkCheckV> {
    let url = trim(link.url);
    let text = shown_text(link);
    if url.len() == 0 {
        Some(LinkCheckV::Found(link_diagnostic(rel_file, url, link, DiagnosticKindV::Empty { link_text: text })))
    } else {
        match url_parse_result(url) {
            Ok(_) => Some(LinkCheckV::Fine),
            Err(n) => {
                if url_error_of_name(n) != Some(UrlError::RelativeUrlWithoutBase) {
                    Some(LinkCheckV::Found(link_diagnostic(rel_file, url, link,
                        DiagnosticKindV::InvalidExternalLink { error: url_error_of_name(n)->Some_0 })))
                } else if !internal_link_ok(file, root, url) {
                    None
                } else {
                    let u = url_parse_result(internal_link_url(file, root, url))->Ok_0;
                    if u.scheme != "file"@ || u.file_path is None {
                        None
                    } else {
                        Some(resolved_check(root, rel_file, url, link, u.file_path->Some_0))
                    }
                }
            },
        }
    }
}

/// Checks one link of the file at `file_path` (known in the site as
/// `rel_file`), in the site rooted at `root`. `None` where its target cannot
/// be resolved to a local file path (see [`link_check`]).
pub fn check_link(file_path: &str, root: &str, rel_file: &str, link: &MdLink) -> (res: Option<LinkCheck>)
    ensures
        match link_check(file_path@, root@, rel_file@, link@) {
            Some(c) => res matches Some(r) && r@ == c,
            None => res is None,
        },
        res matches Some(LinkCheck::IfMissing { path, .. }) ==> md_source_of(resolved_target(file_path@, root@, link@), path@),
{
    let url = trim_str(link.url.as_str());
    let text = match &link.title {
        Some(t) => copy_str(t.as_str()),
        None => copy_str("<bare link>"),
    };
    let diag = Diagnostic::new(rel_file, url.as_str(), link.lineno, link.colno, link.endlineno, link.endcolno);
    if url.as_str().unicode_len() == 0 {
        return Some(LinkCheck::Found(diag.empty(text.as_str())));
    }
    match parse_external_link(url.as_str()) {
        Ok(Some(_)) => {
            return Some(LinkCheck::Fine);
        },
        Err(e) => {
            return Some(LinkCheck::Found(diag.invalid_external_link(e)));
        },
        Ok(None) => {},
    }
    let parsed = match try_parse_internal_link(file_path, root, url.as_str()) {
        Some(u) => u,
        None => {
            return None;
        },
    };
    if !str_eq(parsed.scheme.as_str(), "file") {
        return None;
    }
    let resolved = match &parsed.file_path {
        Some(p) => p,
        None => {
            return None;
        },
    };
    let ext = extension(resolved.as_str());
    let is_md = match &ext {
        Some(e) => str_eq(e.as_str(), "md"),
        None => false,
    };
    if is_md {
        return Some(LinkCheck::Found(diag.md(resolved.as_str())));
    }
    if !path_starts_with(resolved.as_str(), root) {
        return Some(LinkCheck::Found(diag.outside_root()));
    }
    let is_html = match &ext {
        Some(e) => str_eq(e.as_str(), "html"),
        None => false,
    };
    proof {
        reveal_strlit("md");
        reveal_strlit(".md");
        assert(".md"@ =~= seq!['.'] + "md"@);
    }
    let target = if is_html { path_with_extension(resolved.as_str(), "md") } else { copy_str(resolved.as_str()) };
    assert(resolved@ == resolved_target(file_path@, root@, link@));
    proof {
        if is_html {
            assert(path_extension(resolved@) == Some("html"@));
            assert("md"@.len() > 0);
            let stem = name_stem(path_file_name(resolved@)->Some_0);
            assert(stem + seq!['.'] + "md"@ =~= stem + ".md"@);
        } else {
            assert(path_extension(resolved@) != Some("html"@));
            assert(target@ == resolved@);
        }
        assert(md_source_of(resolved@, target@));
    }
    let if_missing = diag.nonexistant(target.as_str());
    Some(LinkCheck::IfMissing { path: target, if_missing })
}

/// The path an internal link of the file `file` resolves to.
pub open spec fn resolved_target(file: Seq<char>, root: Seq<char>, link: MdLinkV) -> Seq<char> {
    url_parse_result(internal_link_url(file, root, trim(link.url)))->Ok_0.file_path->Some_0
}

/// The path checked for a link that resolved to `r` is `t`: for a `.html`
/// target (whose stem is not `.`), the file with the same stem and the
/// extension `md`, in the same directory; for any other target, `r` itself.
pub open spec fn md_source_of(r: Seq<char>, t: Seq<char>) -> bool {
    if path_extension(r) == Some("html"@) {
        name_stem(path_file_name(r)->Some_0) != seq!['.'] ==> (
            path_file_name(t) == Some(name_stem(path_file_name(r)->Some_0) + ".md"@)
            && path_components(t).drop_last() == path_components(r).drop_last())
    } else {
        t == r
    }
}

/// The site-relative path of a file: what is left of its path once the
/// components it shares with the root are stripped.
pub open spec fn relative_file(file: Seq<char>, root: Seq<char>) -> Seq<char> {
    render_components(strip_components(path_components(file), path_components(root))->Some_0)
}

/// Whether every link of `links` can be checked (see [`link_check`]).
pub open spec fn all_checkable(file: Seq<char>, root: Seq<char>, links: Seq<MdLinkV>) -> bool {
    forall|i: int| 0 <= i < links.len() ==> (#[trigger] link_check(file, root, relative_file(file, root), links[i])) is Some
}

/// Find the diagnostics ("to diagnose") of a file: the check of each of its
/// links, in order. `None` when a link's target cannot be resolved to a
/// local file path.
pub fn diagnose(file: &File, root: &str) -> (res: Option<Vec<LinkCheck>>)
    requires
        file.links@.len() > 0 ==> strip_components(path_components(file.path@), path_components(root@)) is Some,
    ensures
        res is Some <==> all_checkable(file.path@, root@, file.links@.map_values(|l: MdLink| l@)),
        res matches Some(v) ==> v@.len() == file.links@.len() && forall|i: int| 0 <= i < v@.len() ==>
            Some((#[trigger] v@[i])@) == link_check(file.path@, root@, relative_file(file.path@, root@), file.links@[i]@),
{
    if file.links.len() == 0 {
        return Some(Vec::new());
    }
    let rel = match path_strip_prefix(file.path.as_str(), root) {
        Some(r) => r,
        None => {
            assert(false);
            String::new()
        },
    };
    let ghost links = file.links@.map_values(|l: MdLink| l@);
    let mut out: Vec<LinkCheck> = Vec::new();
    let mut i: usize = 0;
    while i < file.links.len()
        invariant
            i <= file.links@.len(),
            links == file.links@.map_values(|l: MdLink| l@),
            rel@ == relative_file(file.path@, root@),
            out@.len() == i,
            forall|j: int| 0 <= j < i ==> Some((#[trigger] out@[j])@) == link_check(file.path@, root@, rel@, file.links@[j]@),
        decreases file.links@.len() - i,
    {
        match check_link(file.path.as_str(), root, rel.as_str(), &file.links[i]) {
            Some(c) => {
                out.push(c);
            },
            None => {
                assert(link_check(file.path@, root@, rel@, links[i as int]) is None);
                return None;
            },
        }
        i = i + 1;
    }
    assert forall|j: int| 0 <= j < links.len() implies (#[trigger] link_check(file.path@, root@, relative_file(file.path@, root@), links[j])) is Some by {
        assert(links[j] == file.links@[j]@);
        assert(Some(out@[j]@) == link_check(file.path@, root@, rel@, file.links@[j]@));
    }
    Some(out)
}

impl LinkCheck {
    /// The diagnostic of the link, given whether its target exists (`None`
    /// when that could not be found out, which reports nothing).
    pub fn conclude(self, exists: Option<bool>) -> (res: Option<Diagnostic>)
        ensures
            match self@ {
                LinkCheckV::Fine => res is None,
                LinkCheckV::Found(d) => res matches Some(r) && r@ == d,
                LinkCheckV::IfMissing { if_missing, .. } =>
                    if exists == Some(false) { res matches Some(r) && r@ == if_missing } else { res is None },
            },
    {
        match self {
            LinkCheck::Fine => None,
            LinkCheck::Found(d) => Some(d),
            LinkCheck::IfMissing { path: _, if_missing } => {
                match exists {
                    Some(false) => Some(if_missing),
                    _ => None,
                }
            },
        }
    }
}

/// Whether a diagnostic of the kind `kind` is reported when the chosen
/// diagnostics are `enabled`: whether its name text is the text of one of
/// them.
pub fn diagnostic_enabled(enabled: &Vec<DiagnosticName>, kind: &DiagnosticKind) -> (res: bool)
    ensures
        res == exists|i: int| 0 <= i < enabled@.len() && diagnostic_name_str(#[trigger] enabled@[i]) == kind_name_text(kind@),
{
    let name = kind.name_text();
    let mut i: usize = 0;
    while i < enabled.len()
        invariant
            i <= enabled@.len(),
            name@ == kind_name_text(kind@),
            forall|j: int| 0 <= j < i ==> diagnostic_name_str(#[trigger] enabled@[j]) != kind_name_text(kind@),
        decreases enabled@.len() - i,
    {
        if str_eq(enabled[i].as_str(), name) {
            return true;
        }
        i = i + 1;
    }
    false
}


/// Distinct diagnostic names have distinct texts.
pub proof fn lemma_name_text_injective(a: DiagnosticName, b: DiagnosticName)
    ensures
        diagnostic_name_str(a) == diagnostic_name_str(b) ==> a == b,
{
    reveal_strlit("empty");
    reveal_strlit("nonexistant");
    reveal_strlit("md");
    reveal_strlit("outside-root");
    reveal_strlit("external-link-error");
    reveal_strlit("unreachable");
    if diagnostic_name_str(a) == diagnostic_name_str(b) {
        let x = diagnostic_name_str(a);
        let y = diagnostic_name_str(b);
        assert(x.len() == y.len());
        if x.len() > 0 {
            assert(x[0] == y[0]);
        }
    }
}

/// A diagnostic is reported exactly when its kind is among the chosen ones.
pub proof fn law_enabled_iff_chosen(enabled: Seq<DiagnosticName>, kind: DiagnosticKindV)
    ensures
        (exists|i: int| 0 <= i < enabled.len() && diagnostic_name_str(#[trigger] enabled[i]) == kind_name_text(kind))
            <==> enabled.contains(kind_name(kind)),
{
    if exists|i: int| 0 <= i < enabled.len() && diagnostic_name_str(#[trigger] enabled[i]) == kind_name_text(kind) {
        let i = choose|i: int| 0 <= i < enabled.len() && diagnostic_name_str(#[trigger] enabled[i]) == kind_name_text(kind);
        lemma_name_text_injective(enabled[i], kind_name(kind));
    }
    if enabled.contains(kind_name(kind)) {
        let i = choose|i: int| 0 <= i < enabled.len() && enabled[i] == kind_name(kind);
        assert(diagnostic_name_str(enabled[i]) == kind_name_text(kind));
    }
}

/// A link that parses as an external URL is never reported.
pub proof fn law_external_links_are_fine(file: Seq<char>, root: Seq<char>, rel_file: Seq<char>, link: MdLinkV)
    requires
        trim(link.url).len() > 0,
        url_parse_result(trim(link.url)) is Ok,
    ensures
        link_check(file, root, rel_file, link) == Some(LinkCheckV::Fine),
{
}

/// A link that is empty or all whitespace is always reported as empty, with
/// its link text (or `<bare link>` when it has none).
pub proof fn law_empty_links_are_reported(file: Seq<char>, root: Seq<char>, rel_file: Seq<char>, link: MdLinkV)
    requires
        trim(link.url).len() == 0,
    ensures
        link_check(file, root, rel_file, link) == Some(LinkCheckV::Found(link_diagnostic(
            rel_file, trim(link.url), link, (DiagnosticKindV::Empty { link_text: shown_text(link) }),
        ))),
{
}


/// Every internal link whose target lies inside the root and is not a .md
/// file is checked on disk, whatever its extension: its check asks for a
/// file to exist (the target itself, unless it is a .html file, whose .md
/// source stands for it), and reports that file as nonexistant when it is
/// missing. No such link is taken as fine without that check.
pub proof fn law_internal_targets_are_checked_on_disk(file: Seq<char>, root: Seq<char>, rel_file: Seq<char>, link: MdLinkV)
    requires
        trim(link.url).len() > 0,
        url_parse_result(trim(link.url)) matches Err(n) && url_error_of_name(n) == Some(UrlError::RelativeUrlWithoutBase),
        internal_link_ok(file, root, trim(link.url)),
        url_parse_result(internal_link_url(file, root, trim(link.url))) matches Ok(u)
            && u.scheme == "file"@ && u.file_path is Some,
        is_prefix_of(path_components(root), path_components(resolved_target(file, root, link))),
        path_extension(resolved_target(file, root, link)) != Some("md"@),
    ensures
        link_check(file, root, rel_file, link) matches Some(LinkCheckV::IfMissing { path, if_missing }) && {
            &&& (path_extension(resolved_target(file, root, link)) != Some("html"@) ==> path == resolved_target(file, root, link))
            &&& if_missing.kind == (DiagnosticKindV::Nonexistant { resolved_path: path })
            &&& if_missing.file == rel_file
            &&& if_missing.url == trim(link.url)
            &&& if_missing.lineno == link.lineno
        },
{
}

} // verus!
