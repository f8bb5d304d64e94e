//! The decisions of a run over a site: where the site root is, which files
//! are markdown files, the content hash of a file, and the exchange with
//! `git check-ignore`.

use vstd::prelude::*;
use crate::path_extras::{extension, path_extension, path_parent, std_path_parent};
use crate::text::{join_strings, join_with, lemma_split_join, split_chars, split_on, str_eq};

verus! {

/// What the SHA-1 digest of some bytes is (`sha1::Sha1`).
pub uninterp spec fn sha1_of(data: Seq<u8>) -> Seq<u8>;

/// The SHA-1 digest of `data` (`<sha1::Sha1 as sha1::Digest>::digest`,
/// which is `new`, `update` and `finalize` in turn). The digest is named,
/// not stated; its length, 20 bytes, is that of the crate's output type.
#[verifier::external_body]
fn sha1_digest(data: &[u8]) -> (res: Vec<u8>)
    ensures
        res@ == sha1_of(data@),
        res@.len() == 20,
{
    <sha1::Sha1 as sha1::Digest>::digest(data).to_vec()
}

/// The lower-case hex digit of `n < 16`.
pub open spec fn hex_digit(n: int) -> char {
    if n < 10 {
        ((n + 48) as u8) as char
    } else {
        ((n - 10 + 97) as u8) as char
    }
}

/// Each byte as two lower-case hex digits, high digit first.
pub open spec fn hex_lower(data: Seq<u8>) -> Seq<char>
    decreases data.len(),
{
    if data.len() == 0 {
        Seq::<char>::empty()
    } else {
        hex_lower(data.drop_last()) + seq![hex_digit(data.last() as int / 16), hex_digit(data.last() as int % 16)]
    }
}

/// `hex::encode`: each byte of `data` as two lower-case hex digits, as the
/// crate's documentation states.
#[verifier::external_body]
fn hex_encode(data: &[u8]) -> (res: String)
    ensures
        res@ == hex_lower(data@),
{
    hex::encode(data)
}

/// The content hash of a file: the lower-case hex encoding of the SHA-1
/// digest of its contents.
pub fn calculate_hash(data: &[u8]) -> (res: String)
    ensures
        res@ == hex_lower(sha1_of(data@)),
{
    let digest = sha1_digest(data);
    hex_encode(digest.as_slice())
}

/// Whether a file name names a site configuration file.
pub open spec fn is_config_name(name: Seq<char>) -> bool {
    name == "_config.yml"@ || name == "_config.toml"@
}

/// Whether a file name names a site configuration file.
pub fn is_config_file_name(name: &str) -> (res: bool)
    ensures
        res == is_config_name(name@),
{
    str_eq(name, "_config.yml") || str_eq(name, "_config.toml")
}

/// An entry of a directory, as far as the site root search reads it: its
/// name, and whether it is a regular file (`None` when that could not be
/// read).
pub struct DirEntryInfo {
    pub name: String,
    pub is_file: Option<bool>,
}

/// The outcome of looking for the site configuration in one directory.
pub enum RootSearch {
    /// The directory holds the configuration: it is the site root.
    Found(String),
    /// Look in this directory next: the parent.
    Parent(String),
    /// There is no directory left to look in.
    NotFound,
}

/// Whether one of the entries is a site configuration file.
pub open spec fn holds_config(entries: Seq<DirEntryInfo>) -> bool {
    exists|i: int| 0 <= i < entries.len() && is_config_name((#[trigger] entries[i]).name@) && entries[i].is_file == Some(true)
}

/// Looks for the site configuration (`_config.yml` or `_config.toml`, as a
/// regular file) among the entries of `dir`: the site root is the first
/// directory, going up through the parents, that holds it.
pub fn site_root_step(dir: &str, entries: &Vec<DirEntryInfo>) -> (res: RootSearch)
    ensures
        if holds_config(entries@) {
            res matches RootSearch::Found(d) && d@ == dir@
        } else {
            match std_path_parent(dir@) {
                Some(p) => res matches RootSearch::Parent(q) && q@ == p,
                None => res is NotFound,
            }
        },
{
    let mut i: usize = 0;
    while i < entries.len()
        invariant
            i <= entries@.len(),
            forall|j: int| 0 <= j < i ==> !(is_config_name((#[trigger] entries@[j]).name@) && entries@[j].is_file == Some(true)),
        decreases entries@.len() - i,
    {
        if is_config_file_name(entries[i].name.as_str()) && entries[i].is_file == Some(true) {
            return RootSearch::Found(crate::text::copy_str(dir));
        }
        i = i + 1;
    }
    match path_parent(dir) {
        Some(p) => RootSearch::Parent(p),
        None => RootSearch::NotFound,
    }
}

/// Whether the file name of `path` has the extension `md`.
pub fn has_md_extension(path: &str) -> (res: bool)
    ensures
        res == (path_extension(path@) == Some("md"@)),
{
    match extension(path) {
        Some(e) => str_eq(e.as_str(), "md"),
        None => false,
    }
}

/// The input of `git check-ignore --stdin`: one path per line.
pub fn git_check_ignore_input(files: &Vec<String>) -> (res: String)
    ensures
        res@ == join_with(files@.map_values(|f: String| f@), '\n'),
{
    join_strings(files, '\n')
}

/// The paths that `git check-ignore` wrote: its output cut at each end of
/// line.
pub fn git_check_ignore_output(stdout: &str) -> (res: Vec<String>)
    ensures
        res@.map_values(|p: String| p@) == split_on(stdout@, '\n'),
{
    let v = split_chars(stdout, '\n');
    assert(v@.map_values(|p: String| p@) =~= split_on(stdout@, '\n'));
    v
}

/// Reading back the input written for some paths, none of which holds an
/// end of line, gives those paths.
pub proof fn law_git_lines_roundtrip(files: Seq<Seq<char>>)
    requires
        files.len() >= 1,
        forall|i: int| 0 <= i < files.len() ==> !(#[trigger] files[i]).contains('\n'),
    ensures
        split_on(join_with(files, '\n'), '\n') == files,
{
    lemma_split_join(files, '\n');
}


/// A directory holds the site configuration exactly when one of its
/// entries named `_config.yml` or `_config.toml` is a regular file; then
/// the search stops at that directory.
pub proof fn law_config_names(entries: Seq<DirEntryInfo>)
    ensures
        holds_config(entries) <==> exists|i: int| 0 <= i < entries.len()
            && ((#[trigger] entries[i]).name@ == "_config.yml"@ || entries[i].name@ == "_config.toml"@)
            && entries[i].is_file == Some(true),
{
}

} // verus!
