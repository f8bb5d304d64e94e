//! The cache of diagnostics per file, and the text format of the cache file.
//!
//! The cache file is a single file, located in `SITE_ROOT/.dead-links-cache`.
//! It holds one line for each .md file found, in the following format:
//!
//! ```not_rust
//! HASH <space> PATH <space> <DIAGS>
//! ```
//!
//! where HASH is the sha-1 hash of the contents of the file located in path
//! PATH, and DIAGS is a json-encoded list of diagnostics found for that file.

use vstd::prelude::*;
use crate::diagnostic::{Diagnostic, DiagnosticKind, DiagnosticV};
use crate::path_extras::{component_eq, components, component_views, path_components, path_join, path_rooted_at, push_path, rooted_at, is_prefix_of, law_rooted_path_roundtrip, ComponentV, Component};
use crate::text::{append_str, copy_str, split_on, split_once, split_once_str, str_eq};

verus! {

/// The cached diagnostics of one file, with the hash of the contents they
/// were found for.
pub struct CacheEntry {
    pub hash: String,
    pub diagnostics: Vec<Diagnostic>,
}

/// The mathematical value of a [`CacheEntry`].
pub struct CacheEntryV {
    pub hash: Seq<char>,
    pub diagnostics: Seq<DiagnosticV>,
}

/// The views of a sequence of diagnostics.
pub open spec fn diagnostic_views(ds: Seq<Diagnostic>) -> Seq<DiagnosticV> {
    ds.map_values(|d: Diagnostic| d@)
}

impl View for CacheEntry {
    type V = CacheEntryV;

    open spec fn view(&self) -> CacheEntryV {
        CacheEntryV { hash: self.hash@, diagnostics: diagnostic_views(self.diagnostics@) }
    }
}

/// The map that a sequence of (path, entry) pairs stands for, keyed by the
/// components of the path (two paths with the same components are the same
/// key, as for `PathBuf`); a later pair replaces an earlier one.
pub open spec fn map_of(es: Seq<(Seq<char>, CacheEntryV)>) -> Map<Seq<ComponentV>, CacheEntryV>
    decreases es.len(),
{
    if es.len() == 0 {
        Map::empty()
    } else {
        map_of(es.drop_last()).insert(path_components(es.last().0), es.last().1)
    }
}

/// Whether no two pairs have paths with the same components.
pub open spec fn keys_unique(es: Seq<(Seq<char>, CacheEntryV)>) -> bool {
    forall|i: int, j: int| 0 <= i < j < es.len() ==> path_components(#[trigger] es[i].0) != path_components(#[trigger] es[j].0)
}

/// With distinct keys, the map holds exactly the keys of the pairs, each
/// with its entry.
pub proof fn lemma_map_of(es: Seq<(Seq<char>, CacheEntryV)>)
    requires
        keys_unique(es),
    ensures
        forall|k: Seq<ComponentV>| #[trigger] map_of(es).contains_key(k) <==> exists|i: int| 0 <= i < es.len() && path_components(es[i].0) == k,
        forall|i: int| 0 <= i < es.len() ==> #[trigger] map_of(es)[path_components(es[i].0)] == es[i].1,
    decreases es.len(),
{
    if es.len() > 0 {
        let r = es.drop_last();
        assert(keys_unique(r)) by {
            assert forall|i: int, j: int| 0 <= i < j < r.len() implies path_components(#[trigger] r[i].0) != path_components(#[trigger] r[j].0) by {
                assert(r[i] == es[i] && r[j] == es[j]);
            }
        }
        lemma_map_of(r);
        let last = es.last();
        assert forall|k: Seq<ComponentV>| #[trigger] map_of(es).contains_key(k) <==> exists|i: int| 0 <= i < es.len() && path_components(es[i].0) == k by {
            if map_of(es).contains_key(k) && k != path_components(last.0) {
                assert(map_of(r).contains_key(k));
                let i = choose|i: int| 0 <= i < r.len() && path_components(r[i].0) == k;
                assert(es[i] == r[i]);
            }
            if exists|i: int| 0 <= i < es.len() && path_components(es[i].0) == k {
                let i = choose|i: int| 0 <= i < es.len() && path_components(es[i].0) == k;
                if i < es.len() - 1 {
                    assert(r[i] == es[i]);
                    assert(map_of(r).contains_key(k));
                }
            }
        }
        assert forall|i: int| 0 <= i < es.len() implies #[trigger] map_of(es)[path_components(es[i].0)] == es[i].1 by {
            if i < es.len() - 1 {
                assert(r[i] == es[i]);
                assert(path_components(es[i].0) != path_components(es[es.len() - 1].0));
                assert(map_of(r)[path_components(r[i].0)] == r[i].1);
            }
        }
    }
}

/// The cache: the diagnostics of each file, keyed by the file's path.
pub struct Cache {
    /// The root of the site.
    root: String,
    /// The path to the cache file.
    path: String,
    /// path -> entry, in the order the paths were first inserted.
    files: Vec<(String, CacheEntry)>,
}

impl Cache {
    /// The pairs of path and entry, in the order the paths were first
    /// inserted.
    pub closed spec fn entries(self) -> Seq<(Seq<char>, CacheEntryV)> {
        self.files@.map_values(|p: (String, CacheEntry)| (p.0@, p.1@))
    }

    /// The path of the cache file.
    pub closed spec fn cache_path(self) -> Seq<char> {
        self.path@
    }

    /// The root of the site whose files the cache is for.
    pub closed spec fn cache_root(self) -> Seq<char> {
        self.root@
    }

    #[verifier::type_invariant]
    spec fn inv(self) -> bool {
        keys_unique(self.entries())
    }
}

impl View for Cache {
    type V = Map<Seq<ComponentV>, CacheEntryV>;

    open spec fn view(&self) -> Map<Seq<ComponentV>, CacheEntryV> {
        map_of(self.entries())
    }
}

/// The name of the cache file in the root of the site.
pub open spec fn cache_file_name() -> Seq<char> {
    ".dead-links-cache"@
}

/// Whether two component lists are the same.
fn components_eq(a: &Vec<Component>, b: &Vec<Component>) -> (res: bool)
    ensures
        res == (component_views(a@) == component_views(b@)),
{
    if a.len() != b.len() {
        assert(component_views(a@).len() != component_views(b@).len());
        return false;
    }
    let mut i: usize = 0;
    while i < a.len()
        invariant
            a@.len() == b@.len(),
            i <= a@.len(),
            forall|j: int| 0 <= j < i ==> a@[j]@ == b@[j]@,
        decreases a@.len() - i,
    {
        if !component_eq(&a[i], &b[i]) {
            assert(component_views(a@)[i as int] != component_views(b@)[i as int]);
            return false;
        }
        i = i + 1;
    }
    assert(component_views(a@) =~= component_views(b@));
    true
}

/// Whether `k` is the components of one of `paths`.
pub open spec fn listed(paths: Seq<String>, k: Seq<ComponentV>) -> bool {
    exists|j: int| 0 <= j < paths.len() && path_components(#[trigger] paths[j]@) == k
}

impl Cache {
    /// An empty cache whose file is `.dead-links-cache` in `root`.
    pub fn new(root: &str) -> (res: Cache)
        ensures
            res@ == Map::<Seq<ComponentV>, CacheEntryV>::empty(),
            res.entries().len() == 0,
            res.cache_path() == push_path(root@, cache_file_name()),
            res.cache_root() == root@,
    {
        let path = path_join(root, ".dead-links-cache");
        let res = Cache { root: copy_str(root), path, files: Vec::new() };
        assert(res.entries() =~= Seq::<(Seq<char>, CacheEntryV)>::empty());
        res
    }

    /// The path of the cache file.
    pub fn file_path(&self) -> (res: &str)
        ensures
            res@ == self.cache_path(),
    {
        self.path.as_str()
    }

    /// The number of files in the cache.
    pub fn len(&self) -> (res: usize)
        ensures
            res == self.entries().len(),
    {
        self.files.len()
    }

    /// The path and entry at position `i`, in the order of [`Cache::entries`].
    pub fn entry_at(&self, i: usize) -> (res: (&str, &CacheEntry))
        requires
            i < self.entries().len(),
        ensures
            (res.0@, res.1@) == self.entries()[i as int],
    {
        let p = &self.files[i];
        (p.0.as_str(), &p.1)
    }

    /// The index of the entry whose path has the components of `key`.
    fn find(&self, key: &Vec<Component>) -> (res: Option<usize>)
        ensures
            match res {
                Some(i) => i < self.entries().len() && path_components(self.entries()[i as int].0) == component_views(key@),
                None => forall|i: int| 0 <= i < self.entries().len() ==> path_components(self.entries()[i].0) != component_views(key@),
            },
    {
        let mut i: usize = 0;
        while i < self.files.len()
            invariant
                i <= self.files@.len(),
                self.entries().len() == self.files@.len(),
                forall|j: int| 0 <= j < i ==> path_components(self.entries()[j].0) != component_views(key@),
            decreases self.files@.len() - i,
        {
            let k = components(self.files[i].0.as_str());
            assert(self.entries()[i as int].0 == self.files@[i as int].0@);
            if components_eq(&k, key) {
                return Some(i);
            }
            i = i + 1;
        }
        None
    }

    /// Get the cache entry belonging to a path.
    pub fn get(&self, path: &str) -> (res: Option<&CacheEntry>)
        ensures
            match res {
                Some(e) => self@.contains_key(path_components(path@)) && e@ == self@[path_components(path@)],
                None => !self@.contains_key(path_components(path@)),
            },
    {
        proof {
            use_type_invariant(self);
            lemma_map_of(self.entries());
        }
        let key = components(path);
        match self.find(&key) {
            Some(i) => {
                assert(self.entries()[i as int].1 == self.files@[i as int].1@);
                Some(&self.files[i].1)
            },
            None => None,
        }
    }

    /// Insert the entry of a path, in place of the one it had.
    pub fn insert(&mut self, path: &str, hash: String, diagnostics: Vec<Diagnostic>)
        ensures
            final(self)@ == old(self)@.insert(
                path_components(path@),
                (CacheEntryV { hash: hash@, diagnostics: diagnostic_views(diagnostics@) }),
            ),
            forall|i: int| 0 <= i < old(self).entries().len() && path_components(#[trigger] old(self).entries()[i].0) == path_components(path@)
                ==> final(self).entries() == old(self).entries().update(i, (old(self).entries()[i].0,
                    (CacheEntryV { hash: hash@, diagnostics: diagnostic_views(diagnostics@) }))),
            (forall|i: int| 0 <= i < old(self).entries().len() ==> path_components(#[trigger] old(self).entries()[i].0) != path_components(path@))
                ==> final(self).entries() == old(self).entries().push((path@,
                    (CacheEntryV { hash: hash@, diagnostics: diagnostic_views(diagnostics@) }))),
            final(self).cache_path() == old(self).cache_path(),
            final(self).cache_root() == old(self).cache_root(),
    {
        proof {
            use_type_invariant(&*self);
            lemma_map_of(self.entries());
        }
        let ghost old_entries = self.entries();
        let key = components(path);
        let entry = CacheEntry { hash, diagnostics };
        let ghost ev = entry@;
        let found = self.find(&key);
        let mut files: Vec<(String, CacheEntry)> = Vec::new();
        std::mem::swap(&mut files, &mut self.files);
        assert(files@.map_values(|p: (String, CacheEntry)| (p.0@, p.1@)) =~= old_entries);
        match found {
            Some(i) => {
                let k = files[i].0.clone();
                let ghost kv = k@;
                files.set(i, (k, entry));
                proof {
                    let es = files@.map_values(|p: (String, CacheEntry)| (p.0@, p.1@));
                    assert(es =~= old_entries.update(i as int, (kv, ev)));
                    assert(keys_unique(es)) by {
                        assert forall|a: int, b: int| 0 <= a < b < es.len() implies path_components(#[trigger] es[a].0) != path_components(#[trigger] es[b].0) by {
                            assert(es[a].0 == old_entries[a].0 && es[b].0 == old_entries[b].0);
                        }
                    }
                }
                self.files = files;
                proof {
                    let es = self.entries();
                    assert(es =~= old_entries.update(i as int, (kv, ev)));
                    lemma_map_of(es);
                    assert(self@ =~= old(self)@.insert(path_components(path@), ev)) by {
                        assert forall|k2: Seq<ComponentV>| #[trigger] self@.contains_key(k2) <==> old(self)@.insert(path_components(path@), ev).contains_key(k2) by {
                            if self@.contains_key(k2) {
                                let j = choose|j: int| 0 <= j < es.len() && path_components(es[j].0) == k2;
                                if j != i {
                                    assert(es[j] == old_entries[j]);
                                }
                            }
                            if old(self)@.contains_key(k2) {
                                let j = choose|j: int| 0 <= j < old_entries.len() && path_components(old_entries[j].0) == k2;
                                if j != i {
                                    assert(es[j] == old_entries[j]);
                                } else {
                                    assert(es[j].0 == old_entries[j].0);
                                }
                            }
                        }
                        assert forall|k2: Seq<ComponentV>| #[trigger] self@.contains_key(k2) implies self@[k2] == old(self)@.insert(path_components(path@), ev)[k2] by {
                            let j = choose|j: int| 0 <= j < es.len() && path_components(es[j].0) == k2;
                            assert(self@[path_components(es[j].0)] == es[j].1);
                            if j != i {
                                assert(es[j] == old_entries[j]);
                                assert(old(self)@[path_components(old_entries[j].0)] == old_entries[j].1);
                            }
                        }
                    }
                    assert(kv == old_entries[i as int].0);
                    assert forall|j: int| 0 <= j < old_entries.len() && path_components(#[trigger] old_entries[j].0) == path_components(path@)
                        implies self.entries() == old_entries.update(j, (old_entries[j].0, ev)) by {
                        if j < i {
                            assert(path_components(old_entries[j].0) != path_components(old_entries[i as int].0));
                        } else if j > i {
                            assert(path_components(old_entries[i as int].0) != path_components(old_entries[j].0));
                        }
                    }
                }
            },
            None => {
                let k = copy_str(path);
                files.push((k, entry));
                proof {
                    let es = files@.map_values(|p: (String, CacheEntry)| (p.0@, p.1@));
                    assert(es =~= old_entries.push((path@, ev)));
                    assert(keys_unique(es)) by {
                        assert forall|a: int, b: int| 0 <= a < b < es.len() implies path_components(#[trigger] es[a].0) != path_components(#[trigger] es[b].0) by {
                            assert(es[a] == old_entries[a]);
                            if b < old_entries.len() {
                                assert(es[b] == old_entries[b]);
                            }
                        }
                    }
                }
                self.files = files;
                proof {
                    let es = self.entries();
                    assert(es =~= old_entries.push((path@, ev)));
                    assert(es.drop_last() =~= old_entries);
                }
            },
        }
    }

    /// Remove the entries of the paths that are not among `paths` (files
    /// that no longer exist).
    pub fn remove_missing(&mut self, paths: &[String])
        ensures
            final(self)@ == Map::new(
                |k: Seq<ComponentV>| old(self)@.contains_key(k) && listed(paths@, k),
                |k: Seq<ComponentV>| old(self)@[k],
            ),
            final(self).entries() == kept_entries(old(self).entries(), paths@),
            final(self).cache_path() == old(self).cache_path(),
            final(self).cache_root() == old(self).cache_root(),
    {
        proof {
            use_type_invariant(&*self);
            lemma_kept_entries(self.entries(), paths@);
        }
        let ghost old_entries = self.entries();
        let mut keys: Vec<Vec<Component>> = Vec::new();
        let mut m: usize = 0;
        while m < paths.len()
            invariant
                m <= paths@.len(),
                keys@.len() == m,
                forall|j: int| 0 <= j < m ==> component_views((#[trigger] keys@[j])@) == path_components(paths@[j]@),
            decreases paths@.len() - m,
        {
            keys.push(components(paths[m].as_str()));
            m = m + 1;
        }
        let mut kept: Vec<(String, CacheEntry)> = Vec::new();
        let mut i: usize = 0;
        assert(old_entries.take(0) =~= Seq::<(Seq<char>, CacheEntryV)>::empty());
        while i < self.files.len()
            invariant
                i <= self.files@.len(),
                old_entries == self.entries(),
                old_entries.len() == self.files@.len(),
                keys@.len() == paths@.len(),
                forall|j: int| 0 <= j < keys@.len() ==> component_views((#[trigger] keys@[j])@) == path_components(paths@[j]@),
                kept@.map_values(|p: (String, CacheEntry)| (p.0@, p.1@)) == kept_entries(old_entries.take(i as int), paths@),
            decreases self.files@.len() - i,
        {
            assert(old_entries.take(i + 1).drop_last() =~= old_entries.take(i as int));
            assert(old_entries[i as int] == (self.files@[i as int].0@, self.files@[i as int].1@));
            let k = components(self.files[i].0.as_str());
            let mut found = false;
            let mut j: usize = 0;
            while j < keys.len()
                invariant
                    j <= keys@.len(),
                    component_views(k@) == path_components(old_entries[i as int].0),
                    found == exists|q: int| 0 <= q < j && path_components(#[trigger] paths@[q]@) == path_components(old_entries[i as int].0),
                    keys@.len() == paths@.len(),
                    forall|q: int| 0 <= q < keys@.len() ==> component_views((#[trigger] keys@[q])@) == path_components(paths@[q]@),
                decreases keys@.len() - j,
            {
                if components_eq(&keys[j], &k) {
                    found = true;
                }
                assert(component_views(keys@[j as int]@) == path_components(paths@[j as int]@));
                j = j + 1;
            }
            if found {
                let key = self.files[i].0.clone();
                let entry = copy_entry(&self.files[i].1);
                kept.push((key, entry));
            }
            i = i + 1;
            assert(kept@.map_values(|p: (String, CacheEntry)| (p.0@, p.1@)) =~= kept_entries(old_entries.take(i as int), paths@));
        }
        assert(old_entries.take(old_entries.len() as int) =~= old_entries);
        assert(kept@.map_values(|p: (String, CacheEntry)| (p.0@, p.1@)) == kept_entries(old_entries, paths@));
        self.files = kept;
    }
}

/// The pairs of `es` whose paths are listed in `paths`, in order.
pub open spec fn kept_entries(es: Seq<(Seq<char>, CacheEntryV)>, paths: Seq<String>) -> Seq<(Seq<char>, CacheEntryV)>
    decreases es.len(),
{
    if es.len() == 0 {
        es
    } else {
        let r = kept_entries(es.drop_last(), paths);
        if listed(paths, path_components(es.last().0)) {
            r.push(es.last())
        } else {
            r
        }
    }
}

/// Keeping the listed pairs keeps the keys distinct and restricts the map
/// to the listed keys.
pub proof fn lemma_kept_entries(es: Seq<(Seq<char>, CacheEntryV)>, paths: Seq<String>)
    requires
        keys_unique(es),
    ensures
        keys_unique(kept_entries(es, paths)),
        forall|a: int| 0 <= a < kept_entries(es, paths).len() ==> exists|t: int| 0 <= t < es.len() && #[trigger] kept_entries(es, paths)[a] == es[t],
        map_of(kept_entries(es, paths)) == Map::new(
            |k: Seq<ComponentV>| map_of(es).contains_key(k) && listed(paths, k),
            |k: Seq<ComponentV>| map_of(es)[k],
        ),
    decreases es.len(),
{
    let target = Map::new(
        |k: Seq<ComponentV>| map_of(es).contains_key(k) && listed(paths, k),
        |k: Seq<ComponentV>| map_of(es)[k],
    );
    if es.len() == 0 {
        assert(map_of(kept_entries(es, paths)) =~= target);
    } else {
        let r = es.drop_last();
        let last = es.last();
        assert(keys_unique(r)) by {
            assert forall|i: int, j: int| 0 <= i < j < r.len() implies path_components(#[trigger] r[i].0) != path_components(#[trigger] r[j].0) by {
                assert(r[i] == es[i] && r[j] == es[j]);
            }
        }
        lemma_kept_entries(r, paths);
        lemma_map_of(r);
        let kr = kept_entries(r, paths);
        let ke = kept_entries(es, paths);
        assert(!map_of(r).contains_key(path_components(last.0))) by {
            if map_of(r).contains_key(path_components(last.0)) {
                let i = choose|i: int| 0 <= i < r.len() && path_components(r[i].0) == path_components(last.0);
                assert(r[i] == es[i]);
            }
        }
        assert forall|a: int| 0 <= a < ke.len() implies exists|t: int| 0 <= t < es.len() && #[trigger] ke[a] == es[t] by {
            if a < kr.len() {
                let t = choose|t: int| 0 <= t < r.len() && #[trigger] kr[a] == r[t];
                assert(ke[a] == kr[a]);
                assert(es[t] == r[t]);
            } else {
                assert(ke[a] == es[es.len() - 1]);
            }
        }
        if listed(paths, path_components(last.0)) {
            assert(keys_unique(ke)) by {
                assert forall|a: int, b: int| 0 <= a < b < ke.len() implies path_components(#[trigger] ke[a].0) != path_components(#[trigger] ke[b].0) by {
                    assert(ke[a] == kr[a]);
                    if b < kr.len() {
                        assert(ke[b] == kr[b]);
                    } else {
                        let t = choose|t: int| 0 <= t < r.len() && #[trigger] kr[a] == r[t];
                        assert(r[t] == es[t]);
                        assert(ke[b] == last);
                    }
                }
            }
            assert(ke.drop_last() =~= kr);
        } else {
            assert(ke == kr);
        }
        assert(map_of(ke) =~= target);
    }
}

/// A copy of a diagnostic kind.
fn copy_kind(k: &DiagnosticKind) -> (res: DiagnosticKind)
    ensures
        res@ == k@,
{
    match k {
        DiagnosticKind::Empty { link_text } => DiagnosticKind::Empty { link_text: link_text.clone() },
        DiagnosticKind::InvalidExternalLink { error } => DiagnosticKind::InvalidExternalLink { error: *error },
        DiagnosticKind::Md { resolved_path } => DiagnosticKind::Md { resolved_path: resolved_path.clone() },
        DiagnosticKind::Nonexistant { resolved_path } => DiagnosticKind::Nonexistant { resolved_path: resolved_path.clone() },
        DiagnosticKind::OutsideRoot => DiagnosticKind::OutsideRoot,
    }
}

/// A copy of a diagnostic.
pub fn copy_diagnostic(d: &Diagnostic) -> (res: Diagnostic)
    ensures
        res@ == d@,
{
    Diagnostic {
        kind: copy_kind(&d.kind),
        file: d.file.clone(),
        url: d.url.clone(),
        lineno: d.lineno,
        colno: d.colno,
        endlineno: d.endlineno,
        endcolno: d.endcolno,
    }
}

/// A copy of a cache entry.
fn copy_entry(e: &CacheEntry) -> (res: CacheEntry)
    ensures
        res@ == e@,
{
    let mut ds: Vec<Diagnostic> = Vec::new();
    let mut i: usize = 0;
    while i < e.diagnostics.len()
        invariant
            i <= e.diagnostics@.len(),
            diagnostic_views(ds@) == diagnostic_views(e.diagnostics@).take(i as int),
        decreases e.diagnostics@.len() - i,
    {
        let d = copy_diagnostic(&e.diagnostics[i]);
        let ghost before = ds@;
        ds.push(d);
        assert(diagnostic_views(ds@) =~= diagnostic_views(before).push(e.diagnostics@[i as int]@));
        i = i + 1;
        assert(diagnostic_views(ds@) =~= diagnostic_views(e.diagnostics@).take(i as int));
    }
    assert(diagnostic_views(e.diagnostics@).take(e.diagnostics@.len() as int) =~= diagnostic_views(e.diagnostics@));
    CacheEntry { hash: e.hash.clone(), diagnostics: ds }
}


/// The diagnostics of all pairs, pair after pair.
pub open spec fn all_entry_diagnostics(es: Seq<(Seq<char>, CacheEntryV)>) -> Seq<DiagnosticV>
    decreases es.len(),
{
    if es.len() == 0 {
        Seq::<DiagnosticV>::empty()
    } else {
        all_entry_diagnostics(es.drop_last()) + es.last().1.diagnostics
    }
}

/// One line of the cache file: the hash, the path and the json-encoded
/// diagnostics, separated by spaces.
pub open spec fn cache_line_text(hash: Seq<char>, path: Seq<char>, json: Seq<char>) -> Seq<char> {
    hash + seq![' '] + path + seq![' '] + json
}

/// The cache file for the pairs `es`, whose diagnostics are encoded as
/// `json`: one line per pair.
pub open spec fn cache_text(es: Seq<(Seq<char>, CacheEntryV)>, json: Seq<Seq<char>>) -> Seq<char>
    decreases es.len(),
{
    if es.len() == 0 || json.len() == 0 {
        Seq::<char>::empty()
    } else {
        cache_text(es.drop_last(), json.drop_last())
            + cache_line_text(es.last().1.hash, es.last().0, json.last()) + seq!['\n']
    }
}

impl Cache {
    /// All diagnostics in the cache, entry after entry.
    pub fn all_diagnostics(&self) -> (res: Vec<&Diagnostic>)
        ensures
            res@.map_values(|d: &Diagnostic| d@) == all_entry_diagnostics(self.entries()),
    {
        let ghost es = self.entries();
        let mut out: Vec<&Diagnostic> = Vec::new();
        let mut i: usize = 0;
        assert(es.take(0) =~= Seq::<(Seq<char>, CacheEntryV)>::empty());
        while i < self.files.len()
            invariant
                i <= self.files@.len(),
                es == self.entries(),
                es.len() == self.files@.len(),
                out@.map_values(|d: &Diagnostic| d@) == all_entry_diagnostics(es.take(i as int)),
            decreases self.files@.len() - i,
        {
            let ds = &self.files[i].1.diagnostics;
            let ghost before = out@.map_values(|d: &Diagnostic| d@);
            assert(es[i as int].1.diagnostics == diagnostic_views(ds@));
            let mut j: usize = 0;
            while j < ds.len()
                invariant
                    j <= ds@.len(),
                    out@.map_values(|d: &Diagnostic| d@) == before + diagnostic_views(ds@).take(j as int),
                decreases ds@.len() - j,
            {
                let ghost prev = out@;
                let d: &Diagnostic = &ds[j];
                assert(d@ == ds@[j as int]@);
                out.push(d);
                assert(out@.map_values(|d: &Diagnostic| d@) =~= prev.map_values(|d: &Diagnostic| d@).push(d@));
                assert(diagnostic_views(ds@).take(j + 1) =~= diagnostic_views(ds@).take(j as int).push(ds@[j as int]@));
                assert(out@.map_values(|d: &Diagnostic| d@) =~= before + diagnostic_views(ds@).take(j + 1));
                j = j + 1;
            }
            assert(diagnostic_views(ds@).take(ds@.len() as int) =~= diagnostic_views(ds@));
            assert(es.take(i + 1).drop_last() =~= es.take(i as int));
            i = i + 1;
        }
        assert(es.take(es.len() as int) =~= es);
        out
    }

    /// The text of the cache file, given the json encoding of the
    /// diagnostics of each entry (in the order of [`Cache::entries`]). The
    /// path of each file is written from the root of the site (see
    /// [`stored_path`]).
    pub fn file_contents(&self, json: &Vec<String>) -> (res: String)
        requires
            json@.len() == self.entries().len(),
        ensures
            res@ == cache_text(stored_entries(self.cache_root(), self.entries()), json@.map_values(|j: String| j@)),
    {
        let ghost es = stored_entries(self.cache_root(), self.entries());
        let ghost js = json@.map_values(|j: String| j@);
        let mut out = String::new();
        let mut i: usize = 0;
        assert(es.take(0) =~= Seq::<(Seq<char>, CacheEntryV)>::empty());
        while i < self.files.len()
            invariant
                i <= self.files@.len(),
                es == stored_entries(self.cache_root(), self.entries()),
                js == json@.map_values(|j: String| j@),
                es.len() == self.files@.len(),
                json@.len() == es.len(),
                out@ == cache_text(es.take(i as int), js.take(i as int)),
            decreases self.files@.len() - i,
        {
            let stored = stored_path_text(self.root.as_str(), self.files[i].0.as_str());
            let line = format_cache_line(self.files[i].1.hash.as_str(), stored.as_str(), json[i].as_str());
            append_str(&mut out, line.as_str());
            proof {
                assert(es.take(i + 1).drop_last() =~= es.take(i as int));
                assert(js.take(i + 1).drop_last() =~= js.take(i as int));
                assert(self.entries()[i as int] == (self.files@[i as int].0@, self.files@[i as int].1@));
                assert(es[i as int] == (stored_path(self.root@, self.files@[i as int].0@), self.files@[i as int].1@));
            }
            i = i + 1;
        }
        assert(es.take(es.len() as int) =~= es);
        assert(js.take(js.len() as int) =~= js);
        out
    }
}

/// The path written in the cache file for a file: its path from the root
/// of the site (`/subdir/file.md`), or the path as it is when stripping the
/// root leaves nothing of it.
pub open spec fn stored_path(root: Seq<char>, path: Seq<char>) -> Seq<char> {
    match rooted_at(root, path) {
        Some(s) => s,
        None => path,
    }
}

/// The pairs with their paths as written in the cache file.
pub open spec fn stored_entries(root: Seq<char>, es: Seq<(Seq<char>, CacheEntryV)>) -> Seq<(Seq<char>, CacheEntryV)> {
    es.map_values(|e: (Seq<char>, CacheEntryV)| (stored_path(root, e.0), e.1))
}

/// The path written in the cache file for the file at `path`.
fn stored_path_text(root: &str, path: &str) -> (res: String)
    ensures
        res@ == stored_path(root@, path@),
{
    match path_rooted_at(path, root) {
        Some(s) => s,
        None => copy_str(path),
    }
}

impl Cache {
    /// Insert the entry of a file whose path was read from the cache file,
    /// where it is written from the root of the site: the file's path is
    /// the root followed by it.
    pub fn insert_stored(&mut self, stored: &str, hash: String, diagnostics: Vec<Diagnostic>)
        ensures
            final(self)@ == old(self)@.insert(
                path_components(old(self).cache_root() + stored@),
                (CacheEntryV { hash: hash@, diagnostics: diagnostic_views(diagnostics@) }),
            ),
            final(self).cache_path() == old(self).cache_path(),
            final(self).cache_root() == old(self).cache_root(),
    {
        let mut full = copy_str(self.root.as_str());
        append_str(&mut full, stored);
        self.insert(full.as_str(), hash, diagnostics);
    }
}

/// Whether the cache holds an entry for `path` whose hash is `hash`: the
/// file's contents are those its cached diagnostics were found for.
pub open spec fn up_to_date(m: Map<Seq<ComponentV>, CacheEntryV>, path: Seq<char>, hash: Seq<char>) -> bool {
    m.contains_key(path_components(path)) && m[path_components(path)].hash == hash
}

impl Cache {
    /// Whether the file at `path`, whose contents hash to `hash`, has to be
    /// scanned: it is new to the cache, or its contents changed since its
    /// diagnostics were cached.
    pub fn needs_scan(&self, path: &str, hash: &str) -> (res: bool)
        ensures
            res == !up_to_date(self@, path@, hash@),
    {
        match self.get(path) {
            Some(e) => !str_eq(e.hash.as_str(), hash),
            None => true,
        }
    }
}

/// One line of the cache file, with its end of line.
pub fn format_cache_line(hash: &str, path: &str, json: &str) -> (res: String)
    ensures
        res@ == cache_line_text(hash@, path@, json@) + seq!['\n'],
{
    let mut out = copy_str(hash);
    crate::text::push_char(&mut out, ' ');
    append_str(&mut out, path);
    crate::text::push_char(&mut out, ' ');
    append_str(&mut out, json);
    crate::text::push_char(&mut out, '\n');
    assert(out@ =~= cache_line_text(hash@, path@, json@) + seq!['\n']);
    out
}

/// A line of the cache file, cut into its parts.
pub struct CacheLine {
    /// The hash of the file's contents.
    pub hash: String,
    /// The path of the file.
    pub path: String,
    /// The json-encoded diagnostics.
    pub diagnostics: String,
}

/// The parts of a cache line (without its end of line): the hash, up to
/// the first space; the path, up to the next space; and the json-encoded
/// diagnostics, the rest of the line, whole.
pub open spec fn cache_line_parts(line: Seq<char>) -> (Seq<char>, Seq<char>, Seq<char>) {
    let (hash, rest) = split_once(line, ' ');
    let (path, json) = split_once(rest, ' ');
    (hash, path, json)
}

/// Cut a line of the cache file (without its end of line) into the hash
/// (up to the first space), the path (up to the next space) and the
/// diagnostics (the rest of the line).
pub fn parse_cache_line(line: &str) -> (res: CacheLine)
    requires
        line@.contains(' '),
    ensures
        (res.hash@, res.path@, res.diagnostics@) == cache_line_parts(line@),
{
    let (hash, rest) = split_once_str(line, ' ');
    let (path, diagnostics) = split_once_str(rest.as_str(), ' ');
    CacheLine { hash, path, diagnostics }
}

/// After an entry is inserted for a path, reading that path (or any path
/// with the same components) gives that entry back, and reading any other
/// path gives what it gave before.
pub proof fn law_read_after_write(before: Cache, after: Cache, path: Seq<char>, entry: CacheEntryV, other: Seq<char>)
    requires
        after@ == before@.insert(path_components(path), entry),
    ensures
        after@.contains_key(path_components(path)),
        after@[path_components(path)] == entry,
        path_components(other) != path_components(path) ==> (
            after@.contains_key(path_components(other)) == before@.contains_key(path_components(other))
            && (before@.contains_key(path_components(other)) ==> after@[path_components(other)] == before@[path_components(other)])),
{
}

/// After the entries of missing files are removed, the cache holds an entry
/// for a path exactly when it held one before and the path is listed, and
/// the entries it keeps are unchanged.
pub proof fn law_remove_missing(before: Cache, after: Cache, paths: Seq<String>, path: Seq<char>)
    requires
        after@ == Map::new(
            |k: Seq<ComponentV>| before@.contains_key(k) && listed(paths, k),
            |k: Seq<ComponentV>| before@[k],
        ),
    ensures
        after@.contains_key(path_components(path)) <==> (before@.contains_key(path_components(path)) && listed(paths, path_components(path))),
        after@.contains_key(path_components(path)) ==> after@[path_components(path)] == before@[path_components(path)],
{
}

/// Once the diagnostics of a file are cached with the hash of its contents,
/// the file is up to date for those contents and for no others: it is only
/// scanned again when its contents change.
pub proof fn law_scan_only_changed(m: Map<Seq<ComponentV>, CacheEntryV>, path: Seq<char>, hash: Seq<char>, diagnostics: Seq<DiagnosticV>, other_hash: Seq<char>)
    ensures
        up_to_date(m.insert(path_components(path), (CacheEntryV { hash, diagnostics })), path, hash),
        other_hash != hash ==> !up_to_date(m.insert(path_components(path), (CacheEntryV { hash, diagnostics })), path, other_hash),
{
}

/// Whether a text holds neither a space nor an end of line.
pub open spec fn plain_field(s: Seq<char>) -> bool {
    !s.contains(' ') && !s.contains('\n')
}

/// The lines of the cache file for the pairs `es` with the json `json`.
pub open spec fn cache_lines(es: Seq<(Seq<char>, CacheEntryV)>, json: Seq<Seq<char>>) -> Seq<Seq<char>>
    decreases es.len(),
{
    if es.len() == 0 || json.len() == 0 {
        Seq::<Seq<char>>::empty()
    } else {
        cache_lines(es.drop_last(), json.drop_last()).push(cache_line_text(es.last().1.hash, es.last().0, json.last()))
    }
}

proof fn lemma_cache_text_lines(es: Seq<(Seq<char>, CacheEntryV)>, json: Seq<Seq<char>>)
    requires
        es.len() == json.len(),
        forall|i: int| 0 <= i < es.len() ==> plain_field((#[trigger] es[i]).1.hash) && plain_field(es[i].0),
        forall|i: int| 0 <= i < json.len() ==> !(#[trigger] json[i]).contains('\n'),
    ensures
        split_on(cache_text(es, json), '\n') == cache_lines(es, json).push(Seq::<char>::empty()),
        cache_lines(es, json).len() == es.len(),
        forall|i: int| 0 <= i < es.len() ==> #[trigger] cache_lines(es, json)[i] == cache_line_text(es[i].1.hash, es[i].0, json[i]),
    decreases es.len(),
{
    if es.len() == 0 {
        assert(split_on(Seq::<char>::empty(), '\n') =~= seq![Seq::<char>::empty()]);
        assert(cache_lines(es, json).push(Seq::<char>::empty()) =~= seq![Seq::<char>::empty()]);
    } else {
        let es0 = es.drop_last();
        let js0 = json.drop_last();
        assert forall|i: int| 0 <= i < es0.len() implies plain_field((#[trigger] es0[i]).1.hash) && plain_field(es0[i].0) by {
            assert(es0[i] == es[i]);
        }
        assert forall|i: int| 0 <= i < js0.len() implies !(#[trigger] js0[i]).contains('\n') by {
            assert(js0[i] == json[i]);
        }
        lemma_cache_text_lines(es0, js0);
        let prev = cache_text(es0, js0);
        let line = cache_line_text(es.last().1.hash, es.last().0, json.last());
        assert(plain_field(es[es.len() - 1].1.hash) && plain_field(es[es.len() - 1].0));
        assert(!json[json.len() - 1].contains('\n'));
        assert(!line.contains('\n')) by {
            if line.contains('\n') {
                let k = choose|k: int| 0 <= k < line.len() && line[k] == '\n';
                let h = es.last().1.hash;
                let p = es.last().0;
                let j = json.last();
                if k < h.len() {
                    assert(h[k] == '\n');
                } else if k == h.len() {
                } else if k < h.len() + 1 + p.len() {
                    assert(p[k - h.len() - 1] == '\n');
                } else if k == h.len() + 1 + p.len() {
                } else {
                    assert(j[k - h.len() - 2 - p.len()] == '\n');
                }
            }
        }
        crate::text::lemma_split_on_append(prev, line, '\n');
        let l0 = cache_lines(es0, js0);
        assert(split_on(prev + line, '\n') =~= l0.push(line));
        assert(cache_text(es, json) =~= (prev + line).push('\n'));
        assert((prev + line).push('\n').drop_last() =~= prev + line);
        assert(split_on(cache_text(es, json), '\n') =~= l0.push(line).push(Seq::<char>::empty()));
        assert forall|i: int| 0 <= i < es.len() implies #[trigger] cache_lines(es, json)[i] == cache_line_text(es[i].1.hash, es[i].0, json[i]) by {
            if i < es0.len() {
                assert(l0[i] == cache_line_text(es0[i].1.hash, es0[i].0, js0[i]));
                assert(es0[i] == es[i] && js0[i] == json[i]);
            }
        }
    }
}

/// What the cache file is written as reads back as what was written: cut at
/// its ends of line, it gives one line per entry (and an empty piece after
/// the last end of line), and each line reads back as the entry's hash,
/// path and json. The file format asks that hashes and paths hold neither
/// spaces nor ends of line, and that the json holds no end of line.
pub proof fn law_cache_file_roundtrip(es: Seq<(Seq<char>, CacheEntryV)>, json: Seq<Seq<char>>)
    requires
        es.len() == json.len(),
        forall|i: int| 0 <= i < es.len() ==> plain_field((#[trigger] es[i]).1.hash) && plain_field(es[i].0),
        forall|i: int| 0 <= i < json.len() ==> !(#[trigger] json[i]).contains('\n'),
    ensures
        split_on(cache_text(es, json), '\n').len() == es.len() + 1,
        split_on(cache_text(es, json), '\n').last() == Seq::<char>::empty(),
        forall|i: int| 0 <= i < es.len() ==> {
            &&& (#[trigger] split_on(cache_text(es, json), '\n')[i]).contains(' ')
            &&& cache_line_parts(split_on(cache_text(es, json), '\n')[i]) == (es[i].1.hash, es[i].0, json[i])
        },
{
    lemma_cache_text_lines(es, json);
    let lines = split_on(cache_text(es, json), '\n');
    assert forall|i: int| 0 <= i < es.len() implies {
        &&& (#[trigger] lines[i]).contains(' ')
        &&& cache_line_parts(lines[i]) == (es[i].1.hash, es[i].0, json[i])
    } by {
        assert(lines[i] == cache_lines(es, json)[i]);
        assert(plain_field(es[i].1.hash) && plain_field(es[i].0));
        law_cache_line_roundtrip(es[i].1.hash, es[i].0, json[i]);
    }
}

/// A line of the cache file whose hash and path hold no space reads back
/// as that hash, path and diagnostics.
pub proof fn law_cache_line_roundtrip(hash: Seq<char>, path: Seq<char>, json: Seq<char>)
    requires
        !hash.contains(' '),
        !path.contains(' '),
    ensures
        cache_line_text(hash, path, json).contains(' '),
        cache_line_parts(cache_line_text(hash, path, json)) == (hash, path, json),
{
    let line = cache_line_text(hash, path, json);
    let rest = path.push(' ') + json;
    assert(line =~= hash.push(' ') + rest);
    assert(line[hash.len() as int] == ' ');
    crate::text::lemma_first_index_after(hash, rest, ' ');
    assert((hash.push(' ') + rest).take(hash.len() as int) =~= hash);
    assert((hash.push(' ') + rest).skip(hash.len() + 1int) =~= rest);
    crate::text::lemma_first_index_after(path, json, ' ');
    assert(rest.take(path.len() as int) =~= path);
    assert(rest.skip(path.len() + 1int) =~= json);
}


/// Saving and loading the cache keeps each entry under its own file: in the
/// text written for the entries of a site rooted at `root`, line `i` reads
/// back as the hash and json of entry `i`, with a path that, put after the
/// root again (as [`Cache::insert_stored`] does), names the same file as
/// the entry's path. The file format asks that hashes and written paths
/// hold neither spaces nor ends of line, and that the json holds no end of
/// line; the files are those inside the root.
pub proof fn law_cache_save_load(root: Seq<char>, es: Seq<(Seq<char>, CacheEntryV)>, json: Seq<Seq<char>>)
    requires
        es.len() == json.len(),
        forall|i: int| 0 <= i < es.len() ==> plain_field((#[trigger] es[i]).1.hash) && plain_field(stored_path(root, es[i].0)),
        forall|i: int| 0 <= i < es.len() ==> is_prefix_of(path_components(root), path_components(#[trigger] es[i].0))
            && 0 < path_components(root).len() < path_components(es[i].0).len(),
        forall|i: int| 0 <= i < json.len() ==> !(#[trigger] json[i]).contains('\n'),
    ensures
        split_on(cache_text(stored_entries(root, es), json), '\n').len() == es.len() + 1,
        forall|i: int| 0 <= i < es.len() ==> {
            let line = #[trigger] split_on(cache_text(stored_entries(root, es), json), '\n')[i];
            &&& line.contains(' ')
            &&& cache_line_parts(line).0 == es[i].1.hash
            &&& cache_line_parts(line).2 == json[i]
            &&& path_components(root + cache_line_parts(line).1) == path_components(es[i].0)
        },
{
    let ses = stored_entries(root, es);
    assert forall|i: int| 0 <= i < ses.len() implies plain_field((#[trigger] ses[i]).1.hash) && plain_field(ses[i].0) by {
        assert(ses[i] == (stored_path(root, es[i].0), es[i].1));
    }
    law_cache_file_roundtrip(ses, json);
    let lines = split_on(cache_text(ses, json), '\n');
    assert forall|i: int| 0 <= i < es.len() implies {
        let line = #[trigger] lines[i];
        &&& line.contains(' ')
        &&& cache_line_parts(line).0 == es[i].1.hash
        &&& cache_line_parts(line).2 == json[i]
        &&& path_components(root + cache_line_parts(line).1) == path_components(es[i].0)
    } by {
        assert(ses[i] == (stored_path(root, es[i].0), es[i].1));
        assert(cache_line_parts(lines[i]) == (ses[i].1.hash, ses[i].0, json[i]));
        law_rooted_path_roundtrip(root, es[i].0);
    }
}

} // verus!
