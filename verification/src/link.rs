//! Parsing the links found in the .md files as URLs: external links as they
//! stand, internal links as `file:` URLs resolved against the site.

use vstd::prelude::*;
use crate::path_extras::{path_components, path_parent, push_path, std_path_parent, path_push};
use crate::text::{append_str, chars_of, copy_str, first_index_of, split_once, split_once_str, string_of_chars};
use crate::url_error::{url_error_from_str, url_error_of_name, UrlError};

verus! {

/// What the link logic reads of a parsed URL.
pub struct ParsedUrl {
    /// The URL in its serialized form.
    pub href: String,
    /// Its scheme.
    pub scheme: String,
    /// The path it stands for, when it is a local file URL whose path is
    /// valid UTF-8.
    pub file_path: Option<String>,
}

/// The mathematical value of a [`ParsedUrl`].
pub struct ParsedUrlV {
    pub href: Seq<char>,
    pub scheme: Seq<char>,
    pub file_path: Option<Seq<char>>,
}

impl View for ParsedUrl {
    type V = ParsedUrlV;

    open spec fn view(&self) -> ParsedUrlV {
        ParsedUrlV {
            href: self.href@,
            scheme: self.scheme@,
            file_path: match &self.file_path {
                Some(p) => Some(p@),
                None => None,
            },
        }
    }
}

/// What `url::Url::parse` gives for an input: the URL, or the name of the
/// variant of its error.
pub uninterp spec fn url_parse_result(input: Seq<char>) -> Result<ParsedUrlV, Seq<char>>;

/// `url::Url::parse`, with the URL read into a [`ParsedUrl`] (through
/// `as_str`, `scheme` and `to_file_path`) and the error turned into the name
/// of its variant. The result is named, not stated; of an error the contract
/// states that its name is one of the variants of `url::ParseError`, as the
/// source of that enum and its derived `Debug` show.
#[verifier::external_body]
fn url_parse(input: &str) -> (res: Result<ParsedUrl, String>)
    ensures
        match res {
            Ok(u) => url_parse_result(input@) == Ok::<ParsedUrlV, Seq<char>>(u@),
            Err(e) => url_parse_result(input@) == Err::<ParsedUrlV, Seq<char>>(e@),
        },
        res matches Err(e) ==> url_error_of_name(e@) is Some,
{
    match url::Url::parse(input) {
        Ok(u) => Ok(ParsedUrl {
            href: u.as_str().to_string(),
            scheme: u.scheme().to_string(),
            file_path: u.to_file_path().ok().and_then(|p| p.to_str().map(|s| s.to_string())),
        }),
        Err(e) => Err(format!("{:?}", e)),
    }
}

/// Try to parse a link as an external link. Returns `Ok(Some(parsed))` if it
/// could, `Ok(None)` if not (the link is relative), and `Err(..)` if the link
/// failed to parse as an external link.
pub fn parse_external_link(link: &str) -> (res: Result<Option<ParsedUrl>, UrlError>)
    ensures
        url_parse_result(link@) matches Ok(u) ==> res matches Ok(Some(p)) && p@ == u,
        url_parse_result(link@) matches Err(n) ==> url_error_of_name(n) matches Some(e) && (
            if e == UrlError::RelativeUrlWithoutBase { res matches Ok(None) } else { res == Err::<Option<ParsedUrl>, UrlError>(e) }),
{
    match url_parse(link) {
        Ok(u) => Ok(Some(u)),
        Err(name) => {
            match url_error_from_str(name.as_str()) {
                Some(UrlError::RelativeUrlWithoutBase) => Ok(None),
                Some(e) => Err(e),
                None => {
                    assert(false);
                    Ok(None)
                },
            }
        },
    }
}

/// The text of the `file:` URL that an internal link of the file `file`
/// (whose parent directory is `parent`) stands for in the site rooted at
/// `root`: a link starting with `/` is taken from the root, an empty link
/// (a bare fragment) stands for the file itself, and any other link is
/// joined to the directory of the file; the fragment, if any, is kept.
pub open spec fn internal_link_text(file: Seq<char>, root: Seq<char>, link: Seq<char>, parent: Seq<char>) -> Seq<char> {
    let (l, frag) = split_once(link, '#');
    let base = if l.len() > 0 && l[0] == '/' {
        "file://"@ + root + "/"@ + l.drop_first()
    } else if l.len() == 0 {
        "file://"@ + file
    } else {
        "file://"@ + push_path(parent, l)
    };
    if frag.len() > 0 {
        base + "#"@ + frag
    } else {
        base
    }
}

/// The URL text of an internal link, with the parent of `file` as
/// `std::path::Path::parent` gives it.
pub open spec fn internal_link_url(file: Seq<char>, root: Seq<char>, link: Seq<char>) -> Seq<char> {
    internal_link_text(file, root, link, std_path_parent(file)->Some_0)
}

/// Whether `s` is an absolute path with a parent directory.
pub open spec fn is_absolute_file(s: Seq<char>) -> bool {
    s.len() > 0 && s[0] == '/' && path_components(s).len() > 1
}

/// What [`parse_internal_link`] asks of its arguments: an absolute file
/// path, a non-empty link, a root without a trailing `/` when the link is
/// taken from the root, and a URL text that parses.
pub open spec fn internal_link_ok(file: Seq<char>, root: Seq<char>, link: Seq<char>) -> bool {
    &&& is_absolute_file(file)
    &&& link.len() > 0
    &&& (split_once(link, '#').0.len() > 0 && split_once(link, '#').0[0] == '/' ==> !(root.len() > 0 && root.last() == '/'))
    &&& url_parse_result(internal_link_url(file, root, link)) is Ok
}

/// The URL text of an internal link.
fn internal_link_string(file_path: &str, root: &str, link: &str, parent: &str) -> (res: String)
    ensures
        res@ == internal_link_text(file_path@, root@, link@, parent@),
{
    let (l, frag) = split_once_str(link, '#');
    let lc = chars_of(l.as_str());
    let mut out = copy_str("file://");
    if lc.len() > 0 && lc[0] == '/' {
        append_str(&mut out, root);
        append_str(&mut out, "/");
        let rest = string_of_chars(&lc, 1, lc.len());
        assert(rest@ =~= l@.drop_first());
        append_str(&mut out, rest.as_str());
    } else if lc.len() == 0 {
        append_str(&mut out, file_path);
    } else {
        let mut joined = copy_str(parent);
        path_push(&mut joined, l.as_str());
        append_str(&mut out, joined.as_str());
    }
    if frag.as_str().unicode_len() > 0 {
        append_str(&mut out, "#");
        append_str(&mut out, frag.as_str());
    }
    out
}

/// Parse a link in a file. It needs the path to the file the link is in,
/// the root directory of the site, and the link url text.
///
/// The link is resolved as described at [`internal_link_text`] and parsed
/// as a `file:` URL.
pub fn parse_internal_link(file_path: &str, root: &str, link: &str) -> (res: ParsedUrl)
    requires
        internal_link_ok(file_path@, root@, link@),
    ensures
        url_parse_result(internal_link_url(file_path@, root@, link@)) == Ok::<ParsedUrlV, Seq<char>>(res@),
{
    proof {
        crate::path_extras::lemma_root_only_first(file_path@);
    }
    let parent = path_parent(file_path);
    let parent = match parent {
        Some(p) => p,
        None => {
            assert(false);
            String::new()
        },
    };
    let text = internal_link_string(file_path, root, link, parent.as_str());
    match url_parse(text.as_str()) {
        Ok(u) => u,
        Err(_) => {
            assert(false);
            ParsedUrl { href: String::new(), scheme: String::new(), file_path: None }
        },
    }
}

/// [`parse_internal_link`], for any arguments: `None` when they are not
/// ones it accepts (see [`internal_link_ok`]).
pub fn try_parse_internal_link(file_path: &str, root: &str, link: &str) -> (res: Option<ParsedUrl>)
    ensures
        internal_link_ok(file_path@, root@, link@) <==> res is Some,
        res matches Some(u) ==> url_parse_result(internal_link_url(file_path@, root@, link@)) == Ok::<ParsedUrlV, Seq<char>>(u@),
{
    let fc = chars_of(file_path);
    if fc.len() == 0 || fc[0] != '/' {
        return None;
    }
    proof {
        crate::path_extras::lemma_root_only_first(file_path@);
        crate::path_extras::lemma_components_absolute(file_path@);
    }
    let parent = match path_parent(file_path) {
        Some(p) => p,
        None => {
            return None;
        },
    };
    if link.unicode_len() == 0 {
        return None;
    }
    let (l, _frag) = split_once_str(link, '#');
    let lc = chars_of(l.as_str());
    if lc.len() > 0 && lc[0] == '/' {
        let rc = chars_of(root);
        if rc.len() > 0 && rc[rc.len() - 1] == '/' {
            return None;
        }
    }
    let text = internal_link_string(file_path, root, link, parent.as_str());
    match url_parse(text.as_str()) {
        Ok(_) => Some(parse_internal_link(file_path, root, link)),
        Err(_) => None,
    }
}


/// The fragment of an internal link is kept, whatever kind of link it is:
/// when the link has a non-empty fragment after its first `#`, its URL text
/// is the URL text of the part before the `#`, then `#` and the fragment,
/// whether that part starts with `/`, is empty, or is relative.
pub proof fn law_fragment_is_kept(file: Seq<char>, root: Seq<char>, link: Seq<char>, parent: Seq<char>)
    ensures
        split_once(link, '#').1.len() > 0 ==> internal_link_text(file, root, link, parent)
            == internal_link_text(file, root, split_once(link, '#').0, parent) + "#"@ + split_once(link, '#').1,
{
    let (l, f) = split_once(link, '#');
    if f.len() > 0 {
        crate::text::lemma_first_index_of(link, '#');
        let i = first_index_of(link, '#');
        assert(i >= 0);
        assert(l == link.take(i));
        crate::text::lemma_first_index_of(l, '#');
        if first_index_of(l, '#') >= 0 {
            let k = first_index_of(l, '#');
            assert(l[k] == '#');
            assert(link[k] == l[k]);
        }
        assert(split_once(l, '#') == (l, Seq::<char>::empty()));
    }
}

} // verus!
