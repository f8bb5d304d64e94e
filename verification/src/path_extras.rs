//! Lexical path arithmetic on Unix paths held as strings: splitting a path
//! into components, rendering components back into a path, stripping a
//! leading path, and lexical normalization.

use vstd::prelude::*;
use crate::text::{append_str, chars_of, copy_str, join_with, lemma_split_join, push_char, split_on, str_eq, string_of_chars};

verus! {

/// One component of a Unix path, as `std::path::Path::components` yields it.
#[derive(Clone, Debug, PartialEq, Eq)]
pub enum Component {
    /// The leading `/` of an absolute path.
    RootDir,
    /// A leading `.`.
    CurDir,
    /// A `..`.
    ParentDir,
    /// Any other non-empty piece between separators.
    Normal(String),
}

/// The mathematical value of a [`Component`].
pub enum ComponentV {
    RootDir,
    CurDir,
    ParentDir,
    Normal(Seq<char>),
}

impl View for Component {
    type V = ComponentV;

    open spec fn view(&self) -> ComponentV {
        match self {
            Component::RootDir => ComponentV::RootDir,
            Component::CurDir => ComponentV::CurDir,
            Component::ParentDir => ComponentV::ParentDir,
            Component::Normal(s) => ComponentV::Normal(s@),
        }
    }
}

/// The views of a sequence of components.
pub open spec fn component_views(v: Seq<Component>) -> Seq<ComponentV> {
    v.map_values(|c: Component| c@)
}

/// The component that one piece between separators contributes, if any:
/// empty pieces and `.` contribute nothing.
pub open spec fn segment_component(seg: Seq<char>) -> Option<ComponentV> {
    if seg.len() == 0 || seg == seq!['.'] {
        None
    } else if seg == seq!['.', '.'] {
        Some(ComponentV::ParentDir)
    } else {
        Some(ComponentV::Normal(seg))
    }
}

/// The components contributed by a sequence of pieces, in order.
pub open spec fn segments_components(segs: Seq<Seq<char>>) -> Seq<ComponentV>
    decreases segs.len(),
{
    if segs.len() == 0 {
        Seq::<ComponentV>::empty()
    } else {
        let r = segments_components(segs.drop_last());
        match segment_component(segs.last()) {
            Some(c) => r.push(c),
            None => r,
        }
    }
}

/// The components of a Unix path: a `RootDir` if it starts with `/`, else a
/// `CurDir` if its first piece is `.`; then one component for each piece
/// between separators that is neither empty nor `.`.
pub open spec fn path_components(s: Seq<char>) -> Seq<ComponentV> {
    let segs = split_on(s, '/');
    let head = if s.len() > 0 && s[0] == '/' {
        seq![ComponentV::RootDir]
    } else if segs[0] == seq!['.'] {
        seq![ComponentV::CurDir]
    } else {
        Seq::<ComponentV>::empty()
    };
    head + segments_components(segs)
}

/// The text of one component.
pub open spec fn component_text(c: ComponentV) -> Seq<char> {
    match c {
        ComponentV::RootDir => seq!['/'],
        ComponentV::CurDir => seq!['.'],
        ComponentV::ParentDir => seq!['.', '.'],
        ComponentV::Normal(s) => s,
    }
}

/// `PathBuf::push` on Unix: an absolute `p` replaces `base`; otherwise `p`
/// is appended, with a separator in between unless `base` is empty or
/// already ends with one.
pub open spec fn push_path(base: Seq<char>, p: Seq<char>) -> Seq<char> {
    if p.len() > 0 && p[0] == '/' {
        p
    } else if base.len() > 0 && base.last() != '/' {
        base + seq!['/'] + p
    } else {
        base + p
    }
}

/// The path built by pushing each component in turn onto an empty path.
pub open spec fn render_components(cs: Seq<ComponentV>) -> Seq<char>
    decreases cs.len(),
{
    if cs.len() == 0 {
        Seq::<char>::empty()
    } else {
        push_path(render_components(cs.drop_last()), component_text(cs.last()))
    }
}

/// What is left of `p` past the components it shares with `q`, pairwise
/// from the front: the rest of `p` from the first component that differs
/// (or from the end of `q`), or nothing when `p` runs out.
pub open spec fn strip_shared(p: Seq<ComponentV>, q: Seq<ComponentV>) -> Option<Seq<ComponentV>>
    decreases p.len(),
{
    if p.len() > 0 && q.len() > 0 && p[0] == q[0] {
        strip_shared(p.drop_first(), q.drop_first())
    } else if p.len() > 0 {
        Some(p)
    } else {
        None
    }
}

/// What is left of `p` once the leading components it shares with `q` are
/// removed; nothing when they share no leading component, or when `p` runs
/// out (it is `q`, or the start of `q`).
pub open spec fn strip_components(p: Seq<ComponentV>, q: Seq<ComponentV>) -> Option<Seq<ComponentV>> {
    if p.len() > 0 && q.len() > 0 && p[0] == q[0] {
        strip_shared(p.drop_first(), q.drop_first())
    } else {
        None
    }
}

/// Lexical normalization of the components after the root part: `.` is
/// dropped, `..` removes the last normal component and fails when there is
/// none above the root part, normal components are kept.
pub open spec fn normalize_rest(lexical: Seq<ComponentV>, root: nat, rest: Seq<ComponentV>) -> Option<Seq<ComponentV>>
    decreases rest.len(),
{
    if rest.len() == 0 {
        Some(lexical)
    } else {
        match rest[0] {
            ComponentV::CurDir => normalize_rest(lexical, root, rest.drop_first()),
            ComponentV::ParentDir => {
                if lexical.len() == root {
                    None
                } else {
                    normalize_rest(lexical.drop_last(), root, rest.drop_first())
                }
            },
            ComponentV::Normal(s) => normalize_rest(lexical.push(ComponentV::Normal(s)), root, rest.drop_first()),
            ComponentV::RootDir => None,
        }
    }
}

/// Lexical normalization of a component sequence: a leading `..` fails, a
/// leading `/` or `.` is the root part and is kept.
pub open spec fn normalize_components(cs: Seq<ComponentV>) -> Option<Seq<ComponentV>> {
    if cs.len() == 0 {
        Some(Seq::<ComponentV>::empty())
    } else {
        match cs[0] {
            ComponentV::ParentDir => None,
            ComponentV::RootDir => normalize_rest(seq![ComponentV::RootDir], 1, cs.drop_first()),
            ComponentV::CurDir => normalize_rest(seq![ComponentV::CurDir], 1, cs.drop_first()),
            ComponentV::Normal(_) => normalize_rest(Seq::<ComponentV>::empty(), 0, cs),
        }
    }
}

/// Pieces never contribute a root component.
pub proof fn lemma_segments_no_root(segs: Seq<Seq<char>>)
    ensures
        forall|j: int| 0 <= j < segments_components(segs).len() ==> segments_components(segs)[j] != ComponentV::RootDir,
    decreases segs.len(),
{
    if segs.len() > 0 {
        lemma_segments_no_root(segs.drop_last());
    }
}

/// A root component can only be the first component of a path.
pub proof fn lemma_root_only_first(s: Seq<char>)
    ensures
        forall|j: int| 1 <= j < path_components(s).len() ==> path_components(s)[j] != ComponentV::RootDir,
{
    lemma_segments_no_root(split_on(s, '/'));
}

/// An absolute path starts with its root.
pub proof fn lemma_components_absolute(s: Seq<char>)
    requires
        s.len() > 0 && s[0] == '/',
    ensures
        path_components(s).len() >= 1,
        path_components(s)[0] == ComponentV::RootDir,
{
}

/// The component of one piece between separators.
fn component_of_segment(cs: &Vec<char>, from: usize, to: usize) -> (res: Option<Component>)
    requires
        from <= to <= cs@.len(),
    ensures
        match res {
            Some(c) => segment_component(cs@.subrange(from as int, to as int)) == Some(c@),
            None => segment_component(cs@.subrange(from as int, to as int)) is None,
        },
{
    let ghost seg = cs@.subrange(from as int, to as int);
    if to == from {
        return None;
    }
    if to - from == 1 && cs[from] == '.' {
        assert(seg =~= seq!['.']);
        return None;
    }
    if to - from == 2 && cs[from] == '.' && cs[from + 1] == '.' {
        assert(seg =~= seq!['.', '.']);
        return Some(Component::ParentDir);
    }
    assert(seg.len() != 1 || seg[0] != '.');
    assert(seg.len() != 2 || seg[0] != '.' || seg[1] != '.');
    assert(seg != seq!['.']) by {
        if seg == seq!['.'] {
            assert(seg.len() == 1 && seg[0] == '.');
        }
    }
    assert(seg != seq!['.', '.']) by {
        if seg == seq!['.', '.'] {
            assert(seg.len() == 2 && seg[0] == '.' && seg[1] == '.');
        }
    }
    Some(Component::Normal(string_of_chars(cs, from, to)))
}

/// The components of `path`, as `std::path::Path::components` yields them
/// on Unix.
pub fn components(path: &str) -> (res: Vec<Component>)
    ensures
        component_views(res@) == path_components(path@),
{
    let cs = chars_of(path);
    let n = cs.len();
    let mut comps: Vec<Component> = Vec::new();
    let mut start: usize = 0;
    let mut i: usize = 0;
    let mut first_is_dot = false;
    let mut seen_sep = false;
    let ghost mut done: Seq<Seq<char>> = Seq::empty();
    assert(path@.take(0) =~= Seq::<char>::empty());
    assert(path@.subrange(0, 0) =~= Seq::<char>::empty());
    assert(done.push(Seq::<char>::empty()) =~= seq![Seq::<char>::empty()]);
    assert(component_views(comps@) =~= Seq::<ComponentV>::empty());
    while i < n
        invariant
            cs@ == path@,
            n == cs@.len(),
            start <= i <= n,
            split_on(path@.take(i as int), '/') == done.push(path@.subrange(start as int, i as int)),
            component_views(comps@) == segments_components(done),
            done.len() > 0 ==> first_is_dot == (done[0] == seq!['.']),
            done.len() == 0 ==> start == 0,
            seen_sep == (done.len() > 0),
        decreases n - i,
    {
        proof {
            assert(path@.take(i + 1).drop_last() =~= path@.take(i as int));
        }
        if cs[i] == '/' {
            let ghost seg = path@.subrange(start as int, i as int);
            let c = component_of_segment(&cs, start, i);
            proof {
                assert(done.push(seg).drop_last() =~= done);
            }
            match c {
                Some(c) => {
                    comps.push(c);
                    assert(component_views(comps@) =~= segments_components(done.push(seg)));
                },
                None => {
                    assert(component_views(comps@) =~= segments_components(done.push(seg)));
                },
            }
            if !seen_sep {
                first_is_dot = i == 1 && cs[0] == '.';
                assert(first_is_dot == (seg =~= seq!['.']));
            }
            proof {
                done = done.push(seg);
            }
            seen_sep = true;
            start = i + 1;
            i = i + 1;
            assert(path@.subrange(start as int, i as int) =~= Seq::<char>::empty());
        } else {
            i = i + 1;
            assert(path@.subrange(start as int, i as int) =~= path@.subrange(start as int, i - 1).push(cs@[i - 1]));
        }
    }
    let ghost last = path@.subrange(start as int, n as int);
    let c = component_of_segment(&cs, start, n);
    proof {
        assert(path@.take(n as int) =~= path@);
        assert(done.push(last).drop_last() =~= done);
    }
    match c {
        Some(c) => {
            comps.push(c);
        },
        None => {},
    }
    assert(component_views(comps@) =~= segments_components(done.push(last)));
    if !seen_sep {
        first_is_dot = n == 1 && cs[0] == '.';
        assert(first_is_dot == (last =~= seq!['.']));
    }
    let ghost segs = done.push(last);
    assert(segs[0] == seq!['.'] <==> first_is_dot);
    let mut res: Vec<Component> = Vec::new();
    if n > 0 && cs[0] == '/' {
        res.push(Component::RootDir);
    } else if first_is_dot {
        res.push(Component::CurDir);
    }
    let ghost head = component_views(res@);
    res.append(&mut comps);
    assert(component_views(res@) =~= head + segments_components(segs));
    res
}


/// Whether two components are the same.
pub fn component_eq(a: &Component, b: &Component) -> (res: bool)
    ensures
        res == (a@ == b@),
{
    match (a, b) {
        (Component::RootDir, Component::RootDir) => true,
        (Component::CurDir, Component::CurDir) => true,
        (Component::ParentDir, Component::ParentDir) => true,
        (Component::Normal(x), Component::Normal(y)) => str_eq(x.as_str(), y.as_str()),
        _ => false,
    }
}

/// The text of a component.
pub fn component_string(c: &Component) -> (res: String)
    ensures
        res@ == component_text(c@),
{
    match c {
        Component::RootDir => {
            let mut s = String::new();
            push_char(&mut s, '/');
            assert(s@ =~= seq!['/']);
            s
        },
        Component::CurDir => {
            let mut s = String::new();
            push_char(&mut s, '.');
            assert(s@ =~= seq!['.']);
            s
        },
        Component::ParentDir => {
            let mut s = String::new();
            push_char(&mut s, '.');
            push_char(&mut s, '.');
            assert(s@ =~= seq!['.', '.']);
            s
        },
        Component::Normal(t) => t.clone(),
    }
}

/// `PathBuf::push` on Unix: pushes `p` onto `base`.
pub fn path_push(base: &mut String, p: &str)
    ensures
        final(base)@ == push_path(old(base)@, p@),
{
    let plen = p.unicode_len();
    if plen > 0 && p.get_char(0) == '/' {
        *base = copy_str(p);
        return;
    }
    let blen = base.as_str().unicode_len();
    if blen > 0 && base.as_str().get_char(blen - 1) != '/' {
        push_char(base, '/');
    }
    append_str(base, p);
}

/// `Path::join` on Unix: `base` with `p` pushed onto it.
pub fn path_join(base: &str, p: &str) -> (res: String)
    ensures
        res@ == push_path(base@, p@),
{
    let mut s = copy_str(base);
    path_push(&mut s, p);
    s
}

/// The path built from the components `cs[from..]`, as
/// `PathBuf::from_iter` builds it.
pub fn components_to_path(cs: &Vec<Component>, from: usize) -> (res: String)
    requires
        from <= cs@.len(),
    ensures
        res@ == render_components(component_views(cs@).skip(from as int)),
{
    let ghost views = component_views(cs@).skip(from as int);
    let mut s = String::new();
    let mut i = from;
    assert(views.take(0) =~= Seq::<ComponentV>::empty());
    while i < cs.len()
        invariant
            from <= i <= cs@.len(),
            views == component_views(cs@).skip(from as int),
            s@ == render_components(views.take(i - from)),
        decreases cs@.len() - i,
    {
        let t = component_string(&cs[i]);
        path_push(&mut s, t.as_str());
        proof {
            assert(views.take(i + 1 - from).drop_last() =~= views.take(i - from));
            assert(views.take(i + 1 - from).last() == cs@[i as int]@);
        }
        i = i + 1;
    }
    assert(views.take(cs@.len() - from) =~= views);
    s
}

/// Compare the components of `path` with those of `prefix`, pairwise. For
/// each leading component they have in common, strip that away. Returns the
/// path made of what is left of `path`.
///
/// Returns `None` if they have no components in common, or if the prefix
/// completely "absorbed" the path, that is, if the path is the prefix, or
/// the prefix is the path and a bit longer.
///
/// For example, `/home/user/some/file.txt` with the prefix `/home/user/`
/// gives `some/file.txt`.
pub fn path_strip_prefix(path: &str, prefix: &str) -> (res: Option<String>)
    ensures
        match strip_components(path_components(path@), path_components(prefix@)) {
            Some(rest) => res matches Some(r) && r@ == render_components(rest),
            None => res is None,
        },
{
    let pc = components(path);
    let qc = components(prefix);
    let ghost p = path_components(path@);
    let ghost q = path_components(prefix@);
    assert(p.len() == pc@.len());
    assert(q.len() == qc@.len());
    if pc.len() == 0 || qc.len() == 0 || !component_eq(&pc[0], &qc[0]) {
        return None;
    }
    assert(p.drop_first() =~= p.skip(1));
    assert(q.drop_first() =~= q.skip(1));
    let mut i: usize = 1;
    loop
        invariant
            component_views(pc@) == p,
            component_views(qc@) == q,
            p == path_components(path@),
            q == path_components(prefix@),
            1 <= i <= pc@.len(),
            i <= qc@.len(),
            p.len() == pc@.len(),
            q.len() == qc@.len(),
            strip_components(p, q) == strip_shared(p.skip(i as int), q.skip(i as int)),
        decreases pc@.len() - i,
    {
        if i < pc.len() && i < qc.len() {
            assert(p.skip(i as int)[0] == pc@[i as int]@);
            assert(q.skip(i as int)[0] == qc@[i as int]@);
            assert(p.skip(i as int).drop_first() =~= p.skip(i + 1));
            assert(q.skip(i as int).drop_first() =~= q.skip(i + 1));
            if !component_eq(&pc[i], &qc[i]) {
                assert(strip_shared(p.skip(i as int), q.skip(i as int)) == Some(p.skip(i as int)));
                return Some(components_to_path(&pc, i));
            }
            i = i + 1;
        } else if i < pc.len() {
            assert(p.skip(i as int).len() > 0 && q.skip(i as int).len() == 0);
            assert(strip_shared(p.skip(i as int), q.skip(i as int)) == Some(p.skip(i as int)));
            return Some(components_to_path(&pc, i));
        } else {
            assert(p.skip(i as int).len() == 0);
            return None;
        }
    }
}

/// The error of [`path_normalize_lexically`]: the path climbs above its
/// root with `..`.
#[derive(Debug)]
pub struct NormalizeError;

/// Lexical normalization of a path: `.` components are dropped and each
/// `..` removes the normal component before it. It is an error for a `..`
/// to climb above the root part (a leading `/` or `.`, or the start of a
/// relative path), and for the path to start with `..`.
pub fn path_normalize_lexically(path: &str) -> (res: Result<String, NormalizeError>)
    ensures
        match normalize_components(path_components(path@)) {
            Some(cs) => res matches Ok(s) && s@ == render_components(cs),
            None => res is Err,
        },
{
    let cs = components(path);
    let ghost p = path_components(path@);
    proof {
        lemma_root_only_first(path@);
    }
    let n = cs.len();
    if n == 0 {
        assert(render_components(Seq::<ComponentV>::empty()) =~= Seq::<char>::empty());
        return Ok(String::new());
    }
    let mut lexical: Vec<Component> = Vec::new();
    let mut root: usize = 0;
    let mut i: usize = 0;
    match &cs[0] {
        Component::ParentDir => {
            return Err(NormalizeError);
        },
        Component::RootDir => {
            lexical.push(Component::RootDir);
            root = 1;
            i = 1;
        },
        Component::CurDir => {
            lexical.push(Component::CurDir);
            root = 1;
            i = 1;
        },
        Component::Normal(_) => {},
    }
    assert(p.drop_first() =~= p.skip(1));
    assert(p.skip(0) =~= p);
    assert(p.len() == n);
    assert(p[0] == cs@[0]@);
    assert(component_views(lexical@) =~= if root == 1 { seq![p[0]] } else { Seq::<ComponentV>::empty() });
    while i < n
        invariant
            component_views(cs@) == p,
            p == path_components(path@),
            n == cs@.len(),
            forall|j: int| 1 <= j < p.len() ==> p[j] != ComponentV::RootDir,
            1 <= i <= n || (i == 0 && root == 0),
            root <= 1,
            i == 0 ==> p[0] is Normal,
            p.len() == n,
            root <= lexical@.len(),
            normalize_components(p) == normalize_rest(component_views(lexical@), root as nat, p.skip(i as int)),
        decreases n - i,
    {
        let ghost rest = p.skip(i as int);
        assert(rest[0] == cs@[i as int]@);
        assert(rest.drop_first() =~= p.skip(i + 1));
        match &cs[i] {
            Component::RootDir => {
                assert(i == 0);
                assert(false);
            },
            Component::CurDir => {
                assert(rest[0] == ComponentV::CurDir);
            },
            Component::ParentDir => {
                assert(rest[0] == ComponentV::ParentDir);
                if lexical.len() == root {
                    assert(normalize_rest(component_views(lexical@), root as nat, rest) is None);
                    return Err(NormalizeError);
                }
                let ghost before = component_views(lexical@);
                assert(before.len() == lexical@.len());
                assert(before.len() > 0);
                lexical.pop();
                assert(component_views(lexical@) =~= before.drop_last());
            },
            Component::Normal(s) => {
                assert(rest[0] == ComponentV::Normal(s@));
                let ghost before = component_views(lexical@);
                lexical.push(Component::Normal(s.clone()));
                assert(component_views(lexical@) =~= before.push(ComponentV::Normal(s@)));
            },
        }
        i = i + 1;
    }
    assert(p.skip(n as int) =~= Seq::<ComponentV>::empty());
    let out = components_to_path(&lexical, 0);
    assert(component_views(lexical@).skip(0) =~= component_views(lexical@));
    Ok(out)
}


/// Whether a text is a name that a normal component can have: not empty,
/// without `/`, and neither `.` nor `..`.
pub open spec fn valid_name(n: Seq<char>) -> bool {
    n.len() > 0 && !n.contains('/') && n != seq!['.'] && n != seq!['.', '.']
}

/// Whether a component can stand after the first component of a path: a
/// `..`, or a normal component with a valid name.
pub open spec fn inner_component(c: ComponentV) -> bool {
    match c {
        ComponentV::ParentDir => true,
        ComponentV::Normal(n) => valid_name(n),
        _ => false,
    }
}

/// Whether a component sequence has the shape of the components of a path:
/// a `/` or a `.` at most at the start, and inner components otherwise.
pub open spec fn well_formed_components(cs: Seq<ComponentV>) -> bool {
    forall|j: int| 0 <= j < cs.len() ==> inner_component(#[trigger] cs[j]) || (j == 0 && (cs[j] is RootDir || cs[j] is CurDir))
}

/// The texts of the components.
pub open spec fn component_texts(cs: Seq<ComponentV>) -> Seq<Seq<char>> {
    cs.map_values(|c: ComponentV| component_text(c))
}

proof fn lemma_split_pieces_no_sep(s: Seq<char>, sep: char)
    ensures
        forall|i: int| 0 <= i < split_on(s, sep).len() ==> !(#[trigger] split_on(s, sep)[i]).contains(sep),
    decreases s.len(),
{
    if s.len() > 0 {
        lemma_split_pieces_no_sep(s.drop_last(), sep);
        crate::text::lemma_split_on_len(s.drop_last(), sep);
        let r = split_on(s.drop_last(), sep);
        if s.last() != sep {
            let p = r.last().push(s.last());
            assert(!p.contains(sep)) by {
                if p.contains(sep) {
                    let k = choose|k: int| 0 <= k < p.len() && p[k] == sep;
                    if k < r.last().len() {
                        assert(r[r.len() - 1][k] == sep);
                    }
                }
            }
            assert forall|i: int| 0 <= i < split_on(s, sep).len() implies !(#[trigger] split_on(s, sep)[i]).contains(sep) by {
                if i < r.len() - 1 {
                    assert(split_on(s, sep)[i] == r[i]);
                }
            }
        } else {
            assert forall|i: int| 0 <= i < split_on(s, sep).len() implies !(#[trigger] split_on(s, sep)[i]).contains(sep) by {
                if i < r.len() {
                    assert(split_on(s, sep)[i] == r[i]);
                } else {
                    assert(split_on(s, sep)[i] =~= Seq::<char>::empty());
                }
            }
        }
    }
}

proof fn lemma_segments_inner(segs: Seq<Seq<char>>)
    requires
        forall|i: int| 0 <= i < segs.len() ==> !(#[trigger] segs[i]).contains('/'),
    ensures
        forall|j: int| 0 <= j < segments_components(segs).len() ==> inner_component(#[trigger] segments_components(segs)[j]),
    decreases segs.len(),
{
    if segs.len() > 0 {
        let r = segs.drop_last();
        assert forall|i: int| 0 <= i < r.len() implies !(#[trigger] r[i]).contains('/') by {
            assert(r[i] == segs[i]);
        }
        lemma_segments_inner(r);
        let seg = segs.last();
        assert(!segs[segs.len() - 1].contains('/'));
        match segment_component(seg) {
            Some(c) => {
                assert(inner_component(c));
                let out = segments_components(segs);
                assert forall|j: int| 0 <= j < out.len() implies inner_component(#[trigger] out[j]) by {
                    if j < out.len() - 1 {
                        assert(out[j] == segments_components(r)[j]);
                    }
                }
            },
            None => {},
        }
    }
}

/// The components of every path have the shape of [`well_formed_components`].
pub proof fn lemma_components_well_formed(s: Seq<char>)
    ensures
        well_formed_components(path_components(s)),
{
    let segs = split_on(s, '/');
    lemma_split_pieces_no_sep(s, '/');
    lemma_segments_inner(segs);
    let cs = path_components(s);
    let head = if s.len() > 0 && s[0] == '/' {
        seq![ComponentV::RootDir]
    } else if segs[0] == seq!['.'] {
        seq![ComponentV::CurDir]
    } else {
        Seq::<ComponentV>::empty()
    };
    assert forall|j: int| 0 <= j < cs.len() implies inner_component(#[trigger] cs[j]) || (j == 0 && (cs[j] is RootDir || cs[j] is CurDir)) by {
        if j >= head.len() {
            assert(cs[j] == segments_components(segs)[j - head.len()]);
        }
    }
}

proof fn lemma_segments_concat(a: Seq<Seq<char>>, b: Seq<Seq<char>>)
    ensures
        segments_components(a + b) == segments_components(a) + segments_components(b),
    decreases b.len(),
{
    if b.len() == 0 {
        assert(a + b =~= a);
        assert(segments_components(a) + segments_components(b) =~= segments_components(a));
    } else {
        lemma_segments_concat(a, b.drop_last());
        assert((a + b).drop_last() =~= a + b.drop_last());
        assert((a + b).last() == b.last());
        match segment_component(b.last()) {
            Some(c) => {
                assert(segments_components(a + b) =~= segments_components(a) + segments_components(b));
            },
            None => {},
        }
    }
}

proof fn lemma_segments_texts(rest: Seq<ComponentV>)
    requires
        forall|j: int| 0 <= j < rest.len() ==> inner_component(#[trigger] rest[j]),
    ensures
        segments_components(component_texts(rest)) == rest,
    decreases rest.len(),
{
    if rest.len() > 0 {
        let r = rest.drop_last();
        assert forall|j: int| 0 <= j < r.len() implies inner_component(#[trigger] r[j]) by {
            assert(r[j] == rest[j]);
        }
        lemma_segments_texts(r);
        assert(component_texts(rest).drop_last() =~= component_texts(r));
        assert(component_texts(rest).last() == component_text(rest.last()));
        assert(inner_component(rest[rest.len() - 1]));
        assert(segment_component(component_text(rest.last())) == Some(rest.last()));
        assert(segments_components(component_texts(rest)) =~= r.push(rest.last()));
    }
}

proof fn lemma_join_texts(rest: Seq<ComponentV>)
    requires
        rest.len() > 0,
        forall|j: int| 0 <= j < rest.len() ==> inner_component(#[trigger] rest[j]),
    ensures
        join_with(component_texts(rest), '/').len() > 0,
        join_with(component_texts(rest), '/')[0] != '/',
        join_with(component_texts(rest), '/').last() != '/',
        split_on(join_with(component_texts(rest), '/'), '/') == component_texts(rest),
        component_texts(rest)[0] != seq!['.'],
    decreases rest.len(),
{
    let ts = component_texts(rest);
    assert forall|i: int| 0 <= i < ts.len() implies !(#[trigger] ts[i]).contains('/') && ts[i].len() > 0 && ts[i][0] != '/' by {
        assert(inner_component(rest[i]));
        assert(ts[i] == component_text(rest[i]));
        if ts[i].len() > 0 && ts[i][0] == '/' {
            assert(ts[i].contains('/'));
        }
    }
    lemma_split_join(ts, '/');
    assert(inner_component(rest[0]));
    assert(ts[0] == component_text(rest[0]));
    let t = ts.last();
    assert(t == ts[ts.len() - 1]);
    assert(t.last() != '/') by {
        assert(t.last() == t[t.len() - 1]);
        if t.last() == '/' {
            assert(t.contains('/'));
        }
    }
    if rest.len() > 1 {
        let r = rest.drop_last();
        assert forall|j: int| 0 <= j < r.len() implies inner_component(#[trigger] r[j]) by {
            assert(r[j] == rest[j]);
        }
        lemma_join_texts(r);
        assert(ts.drop_last() =~= component_texts(r));
        let jr = join_with(component_texts(r), '/');
        assert(join_with(ts, '/') == jr.push('/') + t);
        assert((jr.push('/') + t)[0] == jr[0]);
        assert((jr.push('/') + t).last() == t.last());
    } else {
        assert(join_with(ts, '/') == ts[0]);
    }
}

proof fn lemma_render_push(p: Seq<ComponentV>, rest: Seq<ComponentV>)
    requires
        rest.len() > 0,
        forall|j: int| 0 <= j < rest.len() ==> inner_component(#[trigger] rest[j]),
    ensures
        render_components(p + rest) == push_path(render_components(p), join_with(component_texts(rest), '/')),
    decreases rest.len(),
{
    let q = p + rest;
    let ts = component_texts(rest);
    lemma_join_texts(rest);
    let t = ts.last();
    assert(t == component_text(rest.last()));
    assert(q.last() == rest.last());
    assert(inner_component(rest[rest.len() - 1]));
    assert(t.len() > 0 && t[0] != '/') by {
        assert(ts[ts.len() - 1] == t);
        if t.len() > 0 && t[0] == '/' {
            assert(t.contains('/'));
        }
    }
    if rest.len() == 1 {
        assert(q.drop_last() =~= p);
        assert(join_with(ts, '/') == ts[0]);
    } else {
        let r = rest.drop_last();
        assert forall|j: int| 0 <= j < r.len() implies inner_component(#[trigger] r[j]) by {
            assert(r[j] == rest[j]);
        }
        assert(q.drop_last() =~= p + r);
        lemma_render_push(p, r);
        lemma_join_texts(r);
        assert(ts.drop_last() =~= component_texts(r));
        let jr = join_with(component_texts(r), '/');
        let rp = render_components(p);
        let y = push_path(rp, jr);
        assert(y.len() > 0 && y.last() == jr.last());
        assert(push_path(y, t) =~= y + seq!['/'] + t);
        assert(join_with(ts, '/') == jr.push('/') + t);
        assert((jr.push('/') + t)[0] == jr[0]);
        assert(push_path(rp, jr.push('/') + t) =~= y + seq!['/'] + t);
    }
}

proof fn lemma_pc_join(rest: Seq<ComponentV>)
    requires
        rest.len() > 0,
        forall|j: int| 0 <= j < rest.len() ==> inner_component(#[trigger] rest[j]),
    ensures
        path_components(join_with(component_texts(rest), '/')) == rest,
{
    lemma_join_texts(rest);
    lemma_segments_texts(rest);
    let jj = join_with(component_texts(rest), '/');
    assert(split_on(jj, '/')[0] == component_texts(rest)[0]);
    assert(path_components(jj) =~= rest);
}

proof fn lemma_segments_push_empty(segs: Seq<Seq<char>>)
    ensures
        segments_components(segs.push(Seq::<char>::empty())) == segments_components(segs),
{
    let t = segs.push(Seq::<char>::empty());
    assert(t.drop_last() =~= segs);
    assert(t.last() == Seq::<char>::empty());
    assert(segment_component(Seq::<char>::empty()) is None);
}

proof fn lemma_pc_trailing_sep(x: Seq<char>)
    requires
        x.len() > 0,
    ensures
        path_components(x.push('/')) == path_components(x),
{
    let y = x.push('/');
    assert(y.drop_last() =~= x);
    crate::text::lemma_split_on_len(x, '/');
    assert(split_on(y, '/') == split_on(x, '/').push(Seq::<char>::empty()));
    assert(split_on(y, '/')[0] == split_on(x, '/')[0]);
    lemma_segments_push_empty(split_on(x, '/'));
    assert(y[0] == x[0]);
    assert(path_components(y) =~= path_components(x));
}

proof fn lemma_pc_after_sep(x: Seq<char>, rest: Seq<ComponentV>)
    requires
        rest.len() > 0,
        forall|j: int| 0 <= j < rest.len() ==> inner_component(#[trigger] rest[j]),
    ensures
        path_components(x.push('/') + join_with(component_texts(rest), '/')) == path_components(x.push('/')) + rest,
{
    let jj = join_with(component_texts(rest), '/');
    let s = x.push('/') + jj;
    let t = x.push('/');
    lemma_join_texts(rest);
    lemma_segments_texts(rest);
    crate::text::lemma_split_on_concat(x, jj, '/');
    crate::text::lemma_split_on_concat(x, Seq::<char>::empty(), '/');
    assert(t + Seq::<char>::empty() =~= t);
    assert(split_on(Seq::<char>::empty(), '/') =~= seq![Seq::<char>::empty()]);
    crate::text::lemma_split_on_len(x, '/');
    lemma_segments_concat(split_on(x, '/'), component_texts(rest));
    lemma_segments_concat(split_on(x, '/'), seq![Seq::<char>::empty()]);
    lemma_segments_push_empty(Seq::<Seq<char>>::empty());
    assert(Seq::<Seq<char>>::empty().push(Seq::<char>::empty()) =~= seq![Seq::<char>::empty()]);
    assert(segments_components(Seq::<Seq<char>>::empty()) =~= Seq::<ComponentV>::empty());
    assert(split_on(s, '/')[0] == split_on(x, '/')[0]);
    assert(split_on(t, '/')[0] == split_on(x, '/')[0]);
    assert(s[0] == t[0]);
    assert(path_components(s) =~= path_components(t) + rest);
}

/// The components of a relative path pushed onto a path are those of the
/// path followed by those of the relative path.
proof fn lemma_pc_push(x: Seq<char>, rest: Seq<ComponentV>)
    requires
        x.len() > 0,
        rest.len() > 0,
        forall|j: int| 0 <= j < rest.len() ==> inner_component(#[trigger] rest[j]),
    ensures
        path_components(push_path(x, join_with(component_texts(rest), '/'))) == path_components(x) + rest,
{
    let jj = join_with(component_texts(rest), '/');
    lemma_join_texts(rest);
    if x.last() != '/' {
        assert(push_path(x, jj) =~= x.push('/') + jj);
        lemma_pc_after_sep(x, rest);
        lemma_pc_trailing_sep(x);
    } else {
        let x0 = x.drop_last();
        assert(x0.push('/') =~= x);
        assert(push_path(x, jj) =~= x0.push('/') + jj);
        lemma_pc_after_sep(x0, rest);
    }
}

/// A component sequence in the shape of a path's components is the
/// sequence of components of the path it renders to.
pub proof fn lemma_components_of_render(cs: Seq<ComponentV>)
    requires
        well_formed_components(cs),
    ensures
        path_components(render_components(cs)) == cs,
{
    if cs.len() == 0 {
        assert(split_on(Seq::<char>::empty(), '/') =~= seq![Seq::<char>::empty()]);
        lemma_segments_push_empty(Seq::<Seq<char>>::empty());
        assert(Seq::<Seq<char>>::empty().push(Seq::<char>::empty()) =~= seq![Seq::<char>::empty()]);
        assert(segments_components(Seq::<Seq<char>>::empty()) =~= Seq::<ComponentV>::empty());
        assert(path_components(Seq::<char>::empty()) =~= cs);
    } else if inner_component(cs[0]) {
        assert forall|j: int| 0 <= j < cs.len() implies inner_component(#[trigger] cs[j]) by {}
        lemma_render_push(Seq::<ComponentV>::empty(), cs);
        assert(Seq::<ComponentV>::empty() + cs =~= cs);
        lemma_join_texts(cs);
        lemma_pc_join(cs);
    } else {
        let h = seq![cs[0]];
        let rest = cs.drop_first();
        assert forall|j: int| 0 <= j < rest.len() implies inner_component(#[trigger] rest[j]) by {
            assert(rest[j] == cs[j + 1]);
        }
        assert(h.drop_last() =~= Seq::<ComponentV>::empty());
        assert(h.last() == cs[0]);
        assert(render_components(Seq::<ComponentV>::empty()) == Seq::<char>::empty());
        let ht = render_components(h);
        assert(ht == push_path(Seq::<char>::empty(), component_text(cs[0])));
        if cs[0] is RootDir {
            assert(ht =~= seq!['/']);
            assert(split_on(seq!['/'], '/') =~= seq![Seq::<char>::empty(), Seq::<char>::empty()]) by {
                assert(seq!['/'].drop_last() =~= Seq::<char>::empty());
                assert(split_on(Seq::<char>::empty(), '/') =~= seq![Seq::<char>::empty()]);
            }
            lemma_segments_push_empty(Seq::<Seq<char>>::empty());
            lemma_segments_push_empty(seq![Seq::<char>::empty()]);
            assert(Seq::<Seq<char>>::empty().push(Seq::<char>::empty()) =~= seq![Seq::<char>::empty()]);
            assert(seq![Seq::<char>::empty()].push(Seq::<char>::empty()) =~= seq![Seq::<char>::empty(), Seq::<char>::empty()]);
            assert(segments_components(Seq::<Seq<char>>::empty()) =~= Seq::<ComponentV>::empty());
            assert(path_components(ht) =~= h);
        } else {
            assert(cs[0] is CurDir);
            assert(ht =~= seq!['.']);
            assert(split_on(seq!['.'], '/') =~= seq![seq!['.']]) by {
                assert(seq!['.'].drop_last() =~= Seq::<char>::empty());
                assert(split_on(Seq::<char>::empty(), '/') =~= seq![Seq::<char>::empty()]);
            }
            assert(segments_components(seq![seq!['.']]) =~= Seq::<ComponentV>::empty()) by {
                let one = seq![seq!['.']];
                assert(one.drop_last() =~= Seq::<Seq<char>>::empty());
                assert(one.last() == seq!['.']);
                assert(segment_component(seq!['.']) is None);
                assert(segments_components(Seq::<Seq<char>>::empty()) =~= Seq::<ComponentV>::empty());
            }
            assert(path_components(ht) =~= h);
        }
        if rest.len() == 0 {
            assert(cs =~= h);
        } else {
            assert(h + rest =~= cs);
            lemma_render_push(h, rest);
            lemma_pc_push(ht, rest);
        }
    }
}

/// Whether `a` is a leading part of `b`.
pub open spec fn is_prefix_of(a: Seq<ComponentV>, b: Seq<ComponentV>) -> bool {
    a.len() <= b.len() && b.take(a.len() as int) == a
}

/// `Path::starts_with`: whether the components of `base` are the first
/// components of `path`. Only whole components match.
pub fn path_starts_with(path: &str, base: &str) -> (res: bool)
    ensures
        res == is_prefix_of(path_components(base@), path_components(path@)),
{
    let pc = components(path);
    let bc = components(base);
    let ghost p = path_components(path@);
    let ghost b = path_components(base@);
    assert(p.len() == pc@.len() && b.len() == bc@.len());
    if bc.len() > pc.len() {
        return false;
    }
    let mut i: usize = 0;
    while i < bc.len()
        invariant
            component_views(pc@) == p,
            component_views(bc@) == b,
            p == path_components(path@),
            b == path_components(base@),
            p.len() == pc@.len(),
            b.len() == bc@.len(),
            b.len() <= p.len(),
            i <= b.len(),
            forall|j: int| 0 <= j < i ==> p[j] == b[j],
        decreases bc@.len() - i,
    {
        if !component_eq(&pc[i], &bc[i]) {
            assert(p.take(b.len() as int)[i as int] != b[i as int]);
            return false;
        }
        i = i + 1;
    }
    assert(p.take(b.len() as int) =~= b);
    true
}

/// The index of the last `c` in `s`, or `-1` when there is none.
pub open spec fn last_index_of(s: Seq<char>, c: char) -> int
    decreases s.len(),
{
    if s.len() == 0 {
        -1
    } else if s.last() == c {
        s.len() - 1
    } else {
        last_index_of(s.drop_last(), c)
    }
}

/// `Path::file_name`: the last component, when it is a normal one.
pub open spec fn path_file_name(s: Seq<char>) -> Option<Seq<char>> {
    let cs = path_components(s);
    if cs.len() > 0 {
        match cs.last() {
            ComponentV::Normal(name) => Some(name),
            _ => None,
        }
    } else {
        None
    }
}

/// `Path::extension`: what follows the last `.` of the file name, unless
/// the file name has no `.` or only a leading one.
pub open spec fn path_extension(s: Seq<char>) -> Option<Seq<char>> {
    match path_file_name(s) {
        Some(name) => {
            let i = last_index_of(name, '.');
            if i <= 0 {
                None
            } else {
                Some(name.skip(i + 1))
            }
        },
        None => None,
    }
}

/// `last_index_of` lies inside the sequence.
proof fn lemma_last_index_of(s: Seq<char>, c: char)
    ensures
        -1 <= last_index_of(s, c) < s.len(),
        last_index_of(s, c) >= 0 ==> s[last_index_of(s, c)] == c,
        forall|j: int| last_index_of(s, c) < j < s.len() ==> s[j] != c,
    decreases s.len(),
{
    if s.len() > 0 && s.last() != c {
        lemma_last_index_of(s.drop_last(), c);
        assert forall|j: int| last_index_of(s, c) < j < s.len() implies s[j] != c by {
            if j < s.len() - 1 {
                assert(s.drop_last()[j] == s[j]);
            }
        }
    }
}

/// The extension of the file name of `path` (`Path::extension`).
pub fn extension(path: &str) -> (res: Option<String>)
    ensures
        match path_extension(path@) {
            Some(e) => res matches Some(r) && r@ == e,
            None => res is None,
        },
{
    let cs = components(path);
    let ghost p = path_components(path@);
    assert(p.len() == cs@.len());
    if cs.len() == 0 {
        return None;
    }
    assert(p.last() == cs@[cs@.len() - 1]@);
    match &cs[cs.len() - 1] {
        Component::Normal(name) => {
            let chars = chars_of(name.as_str());
            let mut i = chars.len();
            while i > 0
                invariant
                    i <= chars@.len(),
                    chars@ == name@,
                    forall|j: int| i <= j < chars@.len() ==> chars@[j] != '.',
                ensures
                    i <= chars@.len(),
                    chars@ == name@,
                    forall|j: int| i <= j < chars@.len() ==> chars@[j] != '.',
                    i == 0 || chars@[i - 1] == '.',
                decreases i,
            {
                if chars[i - 1] == '.' {
                    break;
                }
                i = i - 1;
            }
            proof {
                lemma_last_index_of(name@, '.');
            }
            if i <= 1 {
                assert(last_index_of(name@, '.') <= 0);
                None
            } else {
                assert(chars@[i - 1] == '.');
                let ghost k = last_index_of(name@, '.');
                assert(k == i - 1) by {
                    lemma_last_index_of(name@, '.');
                    if k < i - 1 {
                        assert(name@[i - 1] != '.');
                    }
                    if k > i - 1 {
                        assert(chars@[k] != '.');
                    }
                }
                assert(name@.skip(i as int) =~= chars@.subrange(i as int, chars@.len() as int));
                Some(string_of_chars(&chars, i, chars.len()))
            }
        },
        _ => None,
    }
}

/// What `std::path::Path::parent` returns for a path.
pub uninterp spec fn std_path_parent(path: Seq<char>) -> Option<Seq<char>>;

/// Whether a path text ends in no empty piece and no `.` piece, other than
/// a lone root `/` or a lone `.`: no trailing separator is left on it.
pub open spec fn trimmed_path(p: Seq<char>) -> bool {
    ||| p.len() == 0
    ||| p == seq!['/']
    ||| p == seq!['.']
    ||| (split_on(p, '/').last() != Seq::<char>::empty() && split_on(p, '/').last() != seq!['.'])
}

/// `std::path::Path::parent`: the path without its final component. As its
/// documentation and source (`Components::next_back` and `as_path`) show:
/// there is none exactly when the path is empty or ends in its root;
/// otherwise the parent is the start of the path's text whose components
/// are the path's components but the last, with the separators and `.`
/// pieces that end it dropped (down to a root `/` or a leading `.`).
#[verifier::external_body]
pub(crate) fn path_parent(path: &str) -> (res: Option<String>)
    ensures
        match res {
            Some(p) => std_path_parent(path@) == Some(p@),
            None => std_path_parent(path@) is None,
        },
        res is None <==> (path_components(path@).len() == 0 || path_components(path@).last() == ComponentV::RootDir),
        res matches Some(p) ==> {
            &&& p@ == path@.take(p@.len() as int)
            &&& path_components(p@) == path_components(path@).drop_last()
            &&& trimmed_path(p@)
        },
{
    std::path::Path::new(path).parent().map(|p| p.to_string_lossy().into_owned())
}

/// What `std::path::Path::with_extension` returns for a path and extension.
pub uninterp spec fn std_with_extension(path: Seq<char>, ext: Seq<char>) -> Seq<char>;

/// The stem of a file name that has an extension: what comes before its
/// last `.`.
pub open spec fn name_stem(name: Seq<char>) -> Seq<char> {
    name.take(last_index_of(name, '.'))
}

/// `std::path::Path::with_extension`: the path with the extension of its
/// file name replaced by `ext` (which must hold no separator: std panics on
/// one). As the documentation of `PathBuf::set_extension` and the source of
/// `with_extension` show, when the file name has an extension, its stem is
/// not `.` and `ext` is not empty, the file name becomes the stem, a `.`
/// and `ext`, and the components before it stay. The text is otherwise
/// only named.
#[verifier::external_body]
pub(crate) fn path_with_extension(path: &str, ext: &str) -> (res: String)
    requires
        !ext@.contains('/'),
    ensures
        res@ == std_with_extension(path@, ext@),
        path_extension(path@) is Some && ext@.len() > 0 && name_stem(path_file_name(path@)->Some_0) != seq!['.'] ==> {
            &&& path_file_name(res@) == Some(name_stem(path_file_name(path@)->Some_0) + seq!['.'] + ext@)
            &&& path_components(res@).drop_last() == path_components(path@).drop_last()
        },
{
    std::path::Path::new(path).with_extension(ext).to_string_lossy().into_owned()
}

proof fn lemma_strip_shared_prefix(p: Seq<ComponentV>, q: Seq<ComponentV>)
    requires
        is_prefix_of(q, p),
        q.len() < p.len(),
    ensures
        strip_shared(p, q) == Some(p.skip(q.len() as int)),
    decreases q.len(),
{
    if q.len() == 0 {
        assert(p.skip(0) =~= p);
    } else {
        assert(p[0] == q[0]) by {
            assert(p.take(q.len() as int)[0] == p[0]);
        }
        assert(is_prefix_of(q.drop_first(), p.drop_first())) by {
            assert(p.drop_first().take(q.drop_first().len() as int) =~= q.drop_first()) by {
                assert forall|i: int| 0 <= i < q.len() - 1 implies p.drop_first()[i] == q.drop_first()[i] by {
                    assert(p.take(q.len() as int)[i + 1] == q[i + 1]);
                }
            }
        }
        lemma_strip_shared_prefix(p.drop_first(), q.drop_first());
        assert(p.drop_first().skip(q.len() - 1) =~= p.skip(q.len() as int));
    }
}

proof fn lemma_strip_shared_itself(p: Seq<ComponentV>)
    ensures
        strip_shared(p, p) is None,
    decreases p.len(),
{
    if p.len() > 0 {
        lemma_strip_shared_itself(p.drop_first());
    }
}

/// Stripping a leading part of a path leaves the components after it.
pub proof fn law_strip_leading_part(p: Seq<ComponentV>, q: Seq<ComponentV>)
    requires
        is_prefix_of(q, p),
        0 < q.len() < p.len(),
    ensures
        strip_components(p, q) == Some(p.skip(q.len() as int)),
{
    assert(p[0] == q[0]) by {
        assert(p.take(q.len() as int)[0] == p[0]);
    }
    assert(is_prefix_of(q.drop_first(), p.drop_first())) by {
        assert(p.drop_first().take(q.drop_first().len() as int) =~= q.drop_first()) by {
            assert forall|i: int| 0 <= i < q.len() - 1 implies p.drop_first()[i] == q.drop_first()[i] by {
                assert(p.take(q.len() as int)[i + 1] == q[i + 1]);
            }
        }
    }
    lemma_strip_shared_prefix(p.drop_first(), q.drop_first());
    assert(p.drop_first().skip(q.len() - 1) =~= p.skip(q.len() as int));
}

/// Stripping a path from itself leaves nothing.
pub proof fn law_strip_itself(p: Seq<ComponentV>)
    ensures
        strip_components(p, p) is None,
{
    if p.len() > 0 {
        lemma_strip_shared_itself(p.drop_first());
    }
}

/// Stripping a path that shares no leading component leaves nothing.
pub proof fn law_strip_unrelated(p: Seq<ComponentV>, q: Seq<ComponentV>)
    requires
        p.len() > 0,
        q.len() > 0,
        p[0] != q[0],
    ensures
        strip_components(p, q) is None,
{
}

/// Whether a component sequence is in normal form: a root part (a `/` or a
/// `.`) at most at the start, and only normal components after it.
pub open spec fn is_normalized(cs: Seq<ComponentV>) -> bool {
    forall|i: int| 0 <= i < cs.len() ==> (#[trigger] cs[i] is Normal || (i == 0 && (cs[i] is RootDir || cs[i] is CurDir)))
}

proof fn lemma_normalize_rest_normal(lexical: Seq<ComponentV>, root: nat, rest: Seq<ComponentV>)
    requires
        is_normalized(lexical),
        root <= lexical.len(),
        root <= 1,
        root == 1 ==> !(lexical[0] is Normal),
        root == 0 ==> forall|i: int| 0 <= i < lexical.len() ==> #[trigger] lexical[i] is Normal,
    ensures
        normalize_rest(lexical, root, rest) matches Some(out) ==> is_normalized(out) && out.len() >= root
            && (root == 1 ==> out[0] == lexical[0])
            && (root == 0 ==> forall|i: int| 0 <= i < out.len() ==> #[trigger] out[i] is Normal),
    decreases rest.len(),
{
    if rest.len() > 0 {
        match rest[0] {
            ComponentV::CurDir => lemma_normalize_rest_normal(lexical, root, rest.drop_first()),
            ComponentV::ParentDir => {
                if lexical.len() != root {
                    lemma_normalize_rest_normal(lexical.drop_last(), root, rest.drop_first());
                }
            },
            ComponentV::Normal(s) => {
                let l2 = lexical.push(ComponentV::Normal(s));
                assert(is_normalized(l2)) by {
                    assert forall|i: int| 0 <= i < l2.len() implies (#[trigger] l2[i] is Normal || (i == 0 && (l2[i] is RootDir || l2[i] is CurDir))) by {
                        if i < lexical.len() {
                            assert(l2[i] == lexical[i]);
                        }
                    }
                }
                lemma_normalize_rest_normal(l2, root, rest.drop_first());
            },
            ComponentV::RootDir => {},
        }
    }
}

/// Normalization gives a path in normal form: a root part at most at the
/// start, then normal components only.
pub proof fn law_normalize_gives_normal_form(cs: Seq<ComponentV>)
    ensures
        normalize_components(cs) matches Some(out) ==> is_normalized(out),
{
    if cs.len() > 0 {
        match cs[0] {
            ComponentV::RootDir => lemma_normalize_rest_normal(seq![ComponentV::RootDir], 1, cs.drop_first()),
            ComponentV::CurDir => lemma_normalize_rest_normal(seq![ComponentV::CurDir], 1, cs.drop_first()),
            ComponentV::Normal(_) => lemma_normalize_rest_normal(Seq::<ComponentV>::empty(), 0, cs),
            ComponentV::ParentDir => {},
        }
    }
}

proof fn lemma_normalize_rest_of_normals(lexical: Seq<ComponentV>, root: nat, rest: Seq<ComponentV>)
    requires
        forall|i: int| 0 <= i < rest.len() ==> #[trigger] rest[i] is Normal,
    ensures
        normalize_rest(lexical, root, rest) == Some(lexical + rest),
    decreases rest.len(),
{
    if rest.len() == 0 {
        assert(lexical + rest =~= lexical);
    } else {
        assert(rest[0] is Normal);
        assert forall|i: int| 0 <= i < rest.drop_first().len() implies #[trigger] rest.drop_first()[i] is Normal by {
            assert(rest.drop_first()[i] == rest[i + 1]);
        }
        lemma_normalize_rest_of_normals(lexical.push(rest[0]), root, rest.drop_first());
        assert(lexical.push(rest[0]) + rest.drop_first() =~= lexical + rest);
    }
}

/// Normalizing a path in normal form changes nothing; so normalizing twice
/// gives what normalizing once gave.
pub proof fn law_normalize_idempotent(cs: Seq<ComponentV>)
    ensures
        is_normalized(cs) ==> normalize_components(cs) == Some(cs),
        normalize_components(cs) matches Some(out) ==> normalize_components(out) == Some(out),
{
    law_normalize_gives_normal_form(cs);
    lemma_normalized_fixed(cs);
    match normalize_components(cs) {
        Some(out) => lemma_normalized_fixed(out),
        None => {},
    }
}

proof fn lemma_normalized_fixed(cs: Seq<ComponentV>)
    ensures
        is_normalized(cs) ==> normalize_components(cs) == Some(cs),
{
    if is_normalized(cs) && cs.len() > 0 {
        let rest = cs.drop_first();
        assert forall|i: int| 0 <= i < rest.len() implies #[trigger] rest[i] is Normal by {
            assert(rest[i] == cs[i + 1]);
        }
        match cs[0] {
            ComponentV::RootDir => {
                lemma_normalize_rest_of_normals(seq![ComponentV::RootDir], 1, rest);
                assert(seq![ComponentV::RootDir] + rest =~= cs);
            },
            ComponentV::CurDir => {
                lemma_normalize_rest_of_normals(seq![ComponentV::CurDir], 1, rest);
                assert(seq![ComponentV::CurDir] + rest =~= cs);
            },
            ComponentV::Normal(_) => {
                assert forall|i: int| 0 <= i < cs.len() implies #[trigger] cs[i] is Normal by {}
                lemma_normalize_rest_of_normals(Seq::<ComponentV>::empty(), 0, cs);
                assert(Seq::<ComponentV>::empty() + cs =~= cs);
            },
            ComponentV::ParentDir => {},
        }
    }
}


/// Stripping a leading part of a path and joining the leading part back to
/// what is left gives the path again (component by component).
pub proof fn law_strip_then_join(path: Seq<char>, prefix: Seq<char>)
    requires
        is_prefix_of(path_components(prefix), path_components(path)),
        0 < path_components(prefix).len() < path_components(path).len(),
    ensures
        strip_components(path_components(path), path_components(prefix)) matches Some(rest)
            && path_components(push_path(prefix, render_components(rest))) == path_components(path),
{
    let p = path_components(path);
    let q = path_components(prefix);
    law_strip_leading_part(p, q);
    let rest = p.skip(q.len() as int);
    lemma_components_well_formed(path);
    assert forall|j: int| 0 <= j < rest.len() implies inner_component(#[trigger] rest[j]) by {
        assert(rest[j] == p[j + q.len()]);
    }
    lemma_render_push(Seq::<ComponentV>::empty(), rest);
    assert(Seq::<ComponentV>::empty() + rest =~= rest);
    lemma_join_texts(rest);
    assert(render_components(Seq::<ComponentV>::empty()) == Seq::<char>::empty());
    let jj = join_with(component_texts(rest), '/');
    assert(push_path(Seq::<char>::empty(), jj) =~= jj);
    assert(prefix.len() > 0) by {
        if prefix.len() == 0 {
            lemma_components_of_render(Seq::<ComponentV>::empty());
            assert(prefix =~= render_components(Seq::<ComponentV>::empty()));
        }
    }
    lemma_pc_push(prefix, rest);
    assert(q + rest =~= p) by {
        assert(p.take(q.len() as int) =~= q);
    }
}

proof fn lemma_normalize_rest_wf(lexical: Seq<ComponentV>, root: nat, rest: Seq<ComponentV>)
    requires
        well_formed_components(lexical),
        root <= lexical.len(),
        forall|j: int| 0 <= j < rest.len() ==> inner_component(#[trigger] rest[j]),
    ensures
        normalize_rest(lexical, root, rest) matches Some(out) ==> well_formed_components(out),
    decreases rest.len(),
{
    if rest.len() > 0 {
        let r = rest.drop_first();
        assert forall|j: int| 0 <= j < r.len() implies inner_component(#[trigger] r[j]) by {
            assert(r[j] == rest[j + 1]);
        }
        assert(inner_component(rest[0]));
        match rest[0] {
            ComponentV::ParentDir => {
                if lexical.len() != root {
                    let l2 = lexical.drop_last();
                    assert forall|j: int| 0 <= j < l2.len() implies inner_component(#[trigger] l2[j]) || (j == 0 && (l2[j] is RootDir || l2[j] is CurDir)) by {
                        assert(l2[j] == lexical[j]);
                    }
                    lemma_normalize_rest_wf(l2, root, r);
                }
            },
            ComponentV::Normal(n) => {
                let l2 = lexical.push(ComponentV::Normal(n));
                assert forall|j: int| 0 <= j < l2.len() implies inner_component(#[trigger] l2[j]) || (j == 0 && (l2[j] is RootDir || l2[j] is CurDir)) by {
                    if j < lexical.len() {
                        assert(l2[j] == lexical[j]);
                    }
                }
                lemma_normalize_rest_wf(l2, root, r);
            },
            _ => {},
        }
    }
}

/// Normalizing the path that lexical normalization gives changes nothing:
/// `path_normalize_lexically` gives back its own result.
pub proof fn law_normalize_lexically_idempotent(path: Seq<char>)
    ensures
        normalize_components(path_components(path)) matches Some(cs) ==> (
            path_components(render_components(cs)) == cs
            && normalize_components(path_components(render_components(cs))) == Some(cs)),
{
    let p = path_components(path);
    lemma_components_well_formed(path);
    law_normalize_gives_normal_form(p);
    if p.len() > 0 {
        let r = p.drop_first();
        assert forall|j: int| 0 <= j < r.len() implies inner_component(#[trigger] r[j]) by {
            assert(r[j] == p[j + 1]);
        }
        match p[0] {
            ComponentV::RootDir => lemma_normalize_rest_wf(seq![ComponentV::RootDir], 1, r),
            ComponentV::CurDir => lemma_normalize_rest_wf(seq![ComponentV::CurDir], 1, r),
            ComponentV::Normal(_) => {
                assert forall|j: int| 0 <= j < p.len() implies inner_component(#[trigger] p[j]) by {}
                lemma_normalize_rest_wf(Seq::<ComponentV>::empty(), 0, p);
            },
            ComponentV::ParentDir => {},
        }
    }
    match normalize_components(p) {
        Some(cs) => {
            if p.len() == 0 {
                assert(cs =~= Seq::<ComponentV>::empty());
            }
            lemma_components_of_render(cs);
            lemma_normalized_fixed(cs);
        },
        None => {},
    }
}


/// The path `path` as seen from the directory `root`, written as an
/// absolute path whose root is `root`: `/` followed by what is left of
/// `path` once the leading components it shares with `root` are stripped.
/// `None` when stripping leaves nothing (see [`strip_components`]).
pub open spec fn rooted_at(root: Seq<char>, path: Seq<char>) -> Option<Seq<char>> {
    match strip_components(path_components(path), path_components(root)) {
        Some(rest) => Some(render_components(seq![ComponentV::RootDir] + rest)),
        None => None,
    }
}

/// The path `path` written as an absolute path whose root is the directory
/// `root` (see [`rooted_at`]): `/home/site/sub/a.md` in the root
/// `/home/site` is `/sub/a.md`.
pub fn path_rooted_at(path: &str, root: &str) -> (res: Option<String>)
    ensures
        match rooted_at(root@, path@) {
            Some(s) => res matches Some(r) && r@ == s,
            None => res is None,
        },
{
    match path_strip_prefix(path, root) {
        Some(r) => {
            let mut out = String::new();
            push_char(&mut out, '/');
            append_str(&mut out, r.as_str());
            proof {
                let p = path_components(path@);
                let q = path_components(root@);
                let rest = strip_components(p, q)->Some_0;
                lemma_strip_rest(p, q);
                lemma_components_well_formed(path@);
                assert forall|j: int| 0 <= j < rest.len() implies inner_component(#[trigger] rest[j]) by {
                    assert(rest[j] == p[j + (p.len() - rest.len())]);
                }
                lemma_render_push(Seq::<ComponentV>::empty(), rest);
                assert(Seq::<ComponentV>::empty() + rest =~= rest);
                lemma_render_push(seq![ComponentV::RootDir], rest);
                lemma_join_texts(rest);
                let jj = join_with(component_texts(rest), '/');
                assert(render_components(Seq::<ComponentV>::empty()) == Seq::<char>::empty());
                assert(push_path(Seq::<char>::empty(), jj) =~= jj);
                assert(seq![ComponentV::RootDir].drop_last() =~= Seq::<ComponentV>::empty());
                assert(render_components(seq![ComponentV::RootDir]) =~= seq!['/']);
                assert(push_path(seq!['/'], jj) =~= seq!['/'] + jj);
                assert(out@ =~= seq!['/'] + jj);
            }
            Some(out)
        },
        None => None,
    }
}

proof fn lemma_strip_shared_rest(p: Seq<ComponentV>, q: Seq<ComponentV>)
    ensures
        strip_shared(p, q) matches Some(rest) ==> 0 < rest.len() <= p.len() && rest == p.skip(p.len() - rest.len()),
    decreases p.len(),
{
    if p.len() > 0 && q.len() > 0 && p[0] == q[0] {
        lemma_strip_shared_rest(p.drop_first(), q.drop_first());
        match strip_shared(p, q) {
            Some(rest) => {
                assert(p.drop_first().skip(p.drop_first().len() - rest.len()) =~= p.skip(p.len() - rest.len()));
            },
            None => {},
        }
    } else if p.len() > 0 {
        assert(p.skip(0) =~= p);
    }
}

/// What stripping leaves is a tail of the path, past its first component.
proof fn lemma_strip_rest(p: Seq<ComponentV>, q: Seq<ComponentV>)
    ensures
        strip_components(p, q) matches Some(rest) ==> 0 < rest.len() < p.len() && rest == p.skip(p.len() - rest.len()),
{
    if p.len() > 0 && q.len() > 0 && p[0] == q[0] {
        lemma_strip_shared_rest(p.drop_first(), q.drop_first());
        match strip_components(p, q) {
            Some(rest) => {
                assert(p.drop_first().skip(p.drop_first().len() - rest.len()) =~= p.skip(p.len() - rest.len()));
            },
            None => {},
        }
    }
}

/// A path inside a directory, written from that directory's root, reads
/// back as the same path once the directory is put in front of it again.
pub proof fn law_rooted_path_roundtrip(root: Seq<char>, path: Seq<char>)
    requires
        is_prefix_of(path_components(root), path_components(path)),
        0 < path_components(root).len() < path_components(path).len(),
    ensures
        rooted_at(root, path) matches Some(s) && path_components(root + s) == path_components(path),
{
    let p = path_components(path);
    let q = path_components(root);
    law_strip_leading_part(p, q);
    let rest = p.skip(q.len() as int);
    lemma_components_well_formed(path);
    assert forall|j: int| 0 <= j < rest.len() implies inner_component(#[trigger] rest[j]) by {
        assert(rest[j] == p[j + q.len()]);
    }
    lemma_render_push(seq![ComponentV::RootDir], rest);
    lemma_join_texts(rest);
    let jj = join_with(component_texts(rest), '/');
    assert(seq![ComponentV::RootDir].drop_last() =~= Seq::<ComponentV>::empty());
    assert(render_components(Seq::<ComponentV>::empty()) == Seq::<char>::empty());
    assert(render_components(seq![ComponentV::RootDir]) =~= seq!['/']);
    assert(push_path(seq!['/'], jj) =~= seq!['/'] + jj);
    assert(root.len() > 0) by {
        if root.len() == 0 {
            lemma_components_of_render(Seq::<ComponentV>::empty());
            assert(root =~= render_components(Seq::<ComponentV>::empty()));
        }
    }
    assert(root + (seq!['/'] + jj) =~= root.push('/') + jj);
    lemma_pc_after_sep(root, rest);
    lemma_pc_trailing_sep(root);
    assert(q + rest =~= p) by {
        assert(p.take(q.len() as int) =~= q);
    }
}

} // verus!
