//! The .md files of a site and the links they contain: parsing markdown
//! into a syntax tree and collecting its links in document order.

use vstd::prelude::*;
use crate::text::copy_str;

verus! {

/// The markdown syntax tree of the `markdown` crate.
#[verifier::external_type_specification]
#[verifier::external_body]
pub struct ExMdNode(markdown::mdast::Node);

/// A link in a markdown file. This includes the entire link.
///
/// ```not_rust
///  --title--  --url---
/// [link text](link url)
/// ```
///
/// Notice that link references, written with only the square brackets, and
/// defined later, is *not* supported. Link references looks like `[text]`.
pub struct MdLink {
    /// The url of the link.
    pub url: String,
    /// The title of the link, or `None` if it's a bare link.
    pub title: Option<String>,
    /// The line (1-based) in the file the link starts at
    pub lineno: usize,
    /// The column (1-based) on the line where the link starts
    pub colno: usize,
    /// The line (1-based) where the link ends
    pub endlineno: usize,
    /// The column (1-based) where the link ends
    pub endcolno: usize,
}

/// A markdown file and the links found in it.
pub struct File {
    pub path: String,
    pub links: Vec<MdLink>,
}

/// The fields of a link node of the syntax tree that the link logic reads:
/// its url, and its start and end (line and column, 1-based) when it has a
/// position.
pub struct LinkNode {
    pub url: String,
    pub position: Option<(usize, usize, usize, usize)>,
}

/// The mathematical value of a [`LinkNode`].
pub struct LinkNodeV {
    pub url: Seq<char>,
    pub position: Option<(usize, usize, usize, usize)>,
}

/// The mathematical value of an [`MdLink`].
pub struct MdLinkV {
    pub url: Seq<char>,
    pub title: Option<Seq<char>>,
    pub lineno: usize,
    pub colno: usize,
    pub endlineno: usize,
    pub endcolno: usize,
}

/// The view of an optional string.
pub open spec fn opt_view(s: Option<String>) -> Option<Seq<char>> {
    match s {
        Some(t) => Some(t@),
        None => None,
    }
}

impl View for LinkNode {
    type V = LinkNodeV;

    open spec fn view(&self) -> LinkNodeV {
        LinkNodeV { url: self.url@, position: self.position }
    }
}

impl View for MdLink {
    type V = MdLinkV;

    open spec fn view(&self) -> MdLinkV {
        MdLinkV {
            url: self.url@,
            title: opt_view(self.title),
            lineno: self.lineno,
            colno: self.colno,
            endlineno: self.endlineno,
            endcolno: self.endcolno,
        }
    }
}

/// What `markdown::to_mdast` gives for a text, with the default options.
pub uninterp spec fn markdown_tree(content: Seq<char>) -> Option<markdown::mdast::Node>;

/// What `Node::children` gives for a node.
pub uninterp spec fn md_children(node: markdown::mdast::Node) -> Option<Seq<markdown::mdast::Node>>;

/// The fields of a node when it is a `Node::Link`.
pub uninterp spec fn md_link(node: markdown::mdast::Node) -> Option<LinkNodeV>;

/// What `Node::to_string` gives for a node: its text.
pub uninterp spec fn md_text(node: markdown::mdast::Node) -> Seq<char>;

/// Whether a node is a `Node::Root`.
pub uninterp spec fn md_is_root(node: markdown::mdast::Node) -> bool;

/// The number of nodes of the tree below and at a node.
pub uninterp spec fn md_size(node: markdown::mdast::Node) -> nat;

/// Parse markdown into a syntax tree (`markdown::to_mdast` with the default
/// options). The tree is named, not stated. The crate's documentation says
/// that parsing never fails for markdown without MDX, which the default
/// options leave off, and its source builds the tree from a `Root` node.
#[verifier::external_body]
pub fn parse_md(content: &str) -> (res: Option<markdown::mdast::Node>)
    ensures
        res == markdown_tree(content@),
        res is Some,
        md_is_root(res->Some_0),
{
    markdown::to_mdast(content, &markdown::ParseOptions::default()).ok()
}

/// `Node::children`: the children of a parent node, `None` for others. A
/// child is a part of its parent, so its tree is smaller.
#[verifier::external_body]
fn node_children(node: &markdown::mdast::Node) -> (res: Option<&Vec<markdown::mdast::Node>>)
    ensures
        match res {
            Some(v) => md_children(*node) == Some(v@),
            None => md_children(*node) is None,
        },
        res matches Some(v) ==> forall|i: int| 0 <= i < v@.len() ==> md_size(#[trigger] v@[i]) < md_size(*node),
{
    node.children()
}

/// The url and position of a `Node::Link`; `None` for other nodes.
#[verifier::external_body]
fn node_link(node: &markdown::mdast::Node) -> (res: Option<LinkNode>)
    ensures
        match res {
            Some(l) => md_link(*node) == Some(l@),
            None => md_link(*node) is None,
        },
{
    match node {
        markdown::mdast::Node::Link(l) => Some(LinkNode {
            url: l.url.clone(),
            position: l.position.as_ref().map(|p| (p.start.line, p.start.column, p.end.line, p.end.column)),
        }),
        _ => None,
    }
}

/// The text of a node (`Node::to_string`): the value of a literal node, the
/// texts of the children of a parent node one after the other (for a link,
/// the text between the brackets), nothing for other nodes. The text is
/// named, not stated.
#[verifier::external_body]
fn node_text(node: &markdown::mdast::Node) -> (res: String)
    ensures
        res@ == md_text(*node),
{
    node.to_string()
}

/// Whether a node is a `Node::Root`.
#[verifier::external_body]
fn node_is_root(node: &markdown::mdast::Node) -> (res: bool)
    ensures
        res == md_is_root(*node),
{
    matches!(node, markdown::mdast::Node::Root(_))
}

/// The link of a node (its fields and its text), if it is one, followed by
/// the links below it, in document order.
pub open spec fn node_links(n: markdown::mdast::Node) -> Seq<(LinkNodeV, Seq<char>)>
    decreases md_size(n), 1nat, 0nat,
{
    let own = match md_link(n) {
        Some(l) => seq![(l, md_text(n))],
        None => Seq::<(LinkNodeV, Seq<char>)>::empty(),
    };
    match md_children(n) {
        Some(cs) => own + forest_links(cs, md_size(n)),
        None => own,
    }
}

/// The links of a sequence of sibling trees, in order; those of a tree that
/// is not smaller than `bound` do not count (children are always smaller
/// than their parent).
pub open spec fn forest_links(cs: Seq<markdown::mdast::Node>, bound: nat) -> Seq<(LinkNodeV, Seq<char>)>
    decreases bound, 0nat, cs.len(),
{
    if cs.len() == 0 {
        Seq::<(LinkNodeV, Seq<char>)>::empty()
    } else if md_size(cs.last()) < bound {
        forest_links(cs.drop_last(), bound) + node_links(cs.last())
    } else {
        forest_links(cs.drop_last(), bound)
    }
}

/// The views of found links.
pub open spec fn found_views(v: Seq<(LinkNode, String)>) -> Seq<(LinkNodeV, Seq<char>)> {
    v.map_values(|p: (LinkNode, String)| (p.0@, p.1@))
}

/// A node of a markdown syntax tree, as far as the link logic reads it.
pub struct MdTree {
    /// Whether the node is the root of a document.
    pub is_root: bool,
    /// When the node is a link: its url and position, and its text (what
    /// stands between its brackets).
    pub link: Option<(LinkNode, String)>,
    /// The children of the node, in order.
    pub children: Vec<MdTree>,
}

/// The link of a tree's own node, if it is one.
pub open spec fn tree_own(t: MdTree) -> Seq<(LinkNodeV, Seq<char>)> {
    match t.link {
        Some(l) => seq![(l.0@, l.1@)],
        None => Seq::<(LinkNodeV, Seq<char>)>::empty(),
    }
}

/// The links of a tree, in document order: the node's own link, then those
/// of its children.
pub open spec fn tree_links(t: MdTree) -> Seq<(LinkNodeV, Seq<char>)>
    decreases t,
{
    proof {
        assert(decreases_to!(t => t.children));
        assert(decreases_to!(t.children => t.children@));
    }
    tree_own(t) + trees_links(t.children@)
}

/// The links of a sequence of sibling trees, in order.
pub open spec fn trees_links(ts: Seq<MdTree>) -> Seq<(LinkNodeV, Seq<char>)>
    decreases ts,
{
    if ts.len() == 0 {
        Seq::<(LinkNodeV, Seq<char>)>::empty()
    } else {
        trees_links(ts.drop_last()) + tree_links(ts.last())
    }
}

/// The tree of the library for a markdown syntax tree: the root flag, the
/// link fields and text of each node, and the children, read through
/// `Node::children`, the `Link` fields and `Node::to_string`.
pub fn md_tree(node: &markdown::mdast::Node) -> (res: MdTree)
    ensures
        res.is_root == md_is_root(*node),
        tree_links(res) == node_links(*node),
    decreases md_size(*node),
{
    let link = match node_link(node) {
        Some(l) => Some((l, node_text(node))),
        None => None,
    };
    let ghost own = match md_link(*node) {
        Some(l) => seq![(l, md_text(*node))],
        None => Seq::<(LinkNodeV, Seq<char>)>::empty(),
    };
    let mut children: Vec<MdTree> = Vec::new();
    match node_children(node) {
        Some(cs) => {
            let ghost bound = md_size(*node);
            let mut i: usize = 0;
            assert(cs@.take(0) =~= Seq::<markdown::mdast::Node>::empty());
            while i < cs.len()
                invariant
                    i <= cs@.len(),
                    bound == md_size(*node),
                    forall|j: int| 0 <= j < cs@.len() ==> md_size(#[trigger] cs@[j]) < bound,
                    trees_links(children@) == forest_links(cs@.take(i as int), bound),
                decreases cs@.len() - i,
            {
                let t = md_tree(&cs[i]);
                let ghost before = children@;
                children.push(t);
                proof {
                    let tk = cs@.take(i + 1);
                    assert(tk.drop_last() =~= cs@.take(i as int));
                    assert(tk.last() == cs@[i as int]);
                    assert(children@.drop_last() =~= before);
                    assert(forest_links(tk, bound) == forest_links(tk.drop_last(), bound) + node_links(tk.last()));
                }
                i = i + 1;
            }
            assert(cs@.take(cs@.len() as int) =~= cs@);
            let res = MdTree { is_root: node_is_root(node), link, children };
            assert(tree_own(res) == own);
            res
        },
        None => {
            assert(trees_links(children@) =~= Seq::<(LinkNodeV, Seq<char>)>::empty());
            let res = MdTree { is_root: node_is_root(node), link, children };
            assert(tree_own(res) == own);
            assert(tree_links(res) =~= own);
            res
        },
    }
}

/// A copy of the fields of a link node.
fn copy_link_node(l: &LinkNode) -> (res: LinkNode)
    ensures
        res@ == l@,
{
    LinkNode { url: copy_str(l.url.as_str()), position: l.position }
}

/// Appends the links of the tree `t` (with their texts), in document order.
fn collect_links(t: &MdTree, links: &mut Vec<(LinkNode, String)>)
    ensures
        found_views(final(links)@) == found_views(old(links)@) + tree_links(*t),
    decreases t,
{
    let ghost start = found_views(links@);
    match &t.link {
        Some(l) => {
            links.push((copy_link_node(&l.0), copy_str(l.1.as_str())));
        },
        None => {},
    }
    assert(found_views(links@) =~= start + tree_own(*t));
    let mut i: usize = 0;
    assert(t.children@.take(0) =~= Seq::<MdTree>::empty());
    while i < t.children.len()
        invariant
            i <= t.children@.len(),
            found_views(links@) == start + tree_own(*t) + trees_links(t.children@.take(i as int)),
        decreases t.children@.len() - i,
    {
        proof {
            assert(decreases_to!(*t => t.children));
            assert(decreases_to!(t.children => t.children@));
            assert(decreases_to!(t.children@ => t.children@[i as int]));
        }
        collect_links(&t.children[i], links);
        proof {
            let tk = t.children@.take(i + 1);
            assert(tk.drop_last() =~= t.children@.take(i as int));
            assert(tk.last() == t.children@[i as int]);
        }
        i = i + 1;
        assert(found_views(links@) =~= start + tree_own(*t) + trees_links(t.children@.take(i as int)));
    }
    assert(t.children@.take(t.children@.len() as int) =~= t.children@);
}

/// Whether every link has a position.
pub open spec fn all_positioned(links: Seq<(LinkNodeV, Seq<char>)>) -> bool {
    forall|i: int| 0 <= i < links.len() ==> (#[trigger] links[i]).0.position is Some
}

/// The link that a positioned link node with the text `l.1` stands for: its
/// title is its text, or none when it has no text.
pub open spec fn md_link_of(l: (LinkNodeV, Seq<char>)) -> MdLinkV {
    MdLinkV {
        url: l.0.url,
        title: if l.1.len() > 0 { Some(l.1) } else { None },
        lineno: l.0.position->Some_0.0,
        colno: l.0.position->Some_0.1,
        endlineno: l.0.position->Some_0.2,
        endcolno: l.0.position->Some_0.3,
    }
}

/// The links of `raw`, all of which have a position.
fn md_links(raw: &Vec<(LinkNode, String)>) -> (res: Vec<MdLink>)
    requires
        all_positioned(found_views(raw@)),
    ensures
        res@.map_values(|l: MdLink| l@) == found_views(raw@).map_values(|l: (LinkNodeV, Seq<char>)| md_link_of(l)),
{
    let ghost fs = found_views(raw@);
    let mut out: Vec<MdLink> = Vec::new();
    let mut i: usize = 0;
    while i < raw.len()
        invariant
            i <= raw@.len(),
            fs == found_views(raw@),
            all_positioned(fs),
            out@.map_values(|l: MdLink| l@) == fs.take(i as int).map_values(|l: (LinkNodeV, Seq<char>)| md_link_of(l)),
        decreases raw@.len() - i,
    {
        let (l, text) = (&raw[i].0, &raw[i].1);
        assert((l@, text@) == fs[i as int]);
        let (lineno, colno, endlineno, endcolno) = match l.position {
            Some(p) => p,
            None => {
                assert(fs[i as int].0.position is Some);
                assert(false);
                (0, 0, 0, 0)
            },
        };
        let title = if text.as_str().unicode_len() > 0 { Some(copy_str(text.as_str())) } else { None };
        let link = MdLink { url: copy_str(l.url.as_str()), title, lineno, colno, endlineno, endcolno };
        assert(link@ == md_link_of(fs[i as int]));
        let ghost before = out@.map_values(|l: MdLink| l@);
        out.push(link);
        assert(out@.map_values(|l: MdLink| l@) =~= before.push(link@));
        assert(fs.take(i + 1).map_values(|l: (LinkNodeV, Seq<char>)| md_link_of(l)) =~=
            fs.take(i as int).map_values(|l: (LinkNodeV, Seq<char>)| md_link_of(l)).push(md_link_of(fs[i as int])));
        i = i + 1;
    }
    assert(fs.take(raw@.len() as int) =~= fs);
    out
}

/// The links of the document whose syntax tree is rooted at `root_node`, in
/// document order; the title of a link is its text (what stands between
/// its brackets). All links of a parsed document have a position.
pub fn mdast_find_links(root_node: &MdTree) -> (res: Vec<MdLink>)
    requires
        root_node.is_root,
        all_positioned(tree_links(*root_node)),
    ensures
        res@.map_values(|l: MdLink| l@) == tree_links(*root_node).map_values(|l: (LinkNodeV, Seq<char>)| md_link_of(l)),
{
    let mut raw: Vec<(LinkNode, String)> = Vec::new();
    collect_links(root_node, &mut raw);
    assert(found_views(raw@) =~= tree_links(*root_node));
    md_links(&raw)
}

proof fn lemma_positioned_concat(a: Seq<(LinkNodeV, Seq<char>)>, b: Seq<(LinkNodeV, Seq<char>)>)
    ensures
        all_positioned(a + b) == (all_positioned(a) && all_positioned(b)),
{
    if all_positioned(a + b) {
        assert forall|i: int| 0 <= i < a.len() implies (#[trigger] a[i]).0.position is Some by {
            assert((a + b)[i] == a[i]);
        }
        assert forall|i: int| 0 <= i < b.len() implies (#[trigger] b[i]).0.position is Some by {
            assert((a + b)[a.len() + i] == b[i]);
        }
    }
    if all_positioned(a) && all_positioned(b) {
        assert forall|i: int| 0 <= i < (a + b).len() implies (#[trigger] (a + b)[i]).0.position is Some by {
            if i < a.len() {
                assert((a + b)[i] == a[i]);
            } else {
                assert((a + b)[i] == b[i - a.len()]);
            }
        }
    }
}

/// Whether every link of the tree `t` has a position.
fn links_positioned(t: &MdTree) -> (res: bool)
    ensures
        res == all_positioned(tree_links(*t)),
    decreases t,
{
    let own_ok = match &t.link {
        Some(l) => l.0.position.is_some(),
        None => true,
    };
    proof {
        match &t.link {
            Some(l) => {
                let own = tree_own(*t);
                assert(own.len() == 1 && own[0].0 == l.0@);
                if own_ok {
                    assert forall|k: int| 0 <= k < own.len() implies (#[trigger] own[k]).0.position is Some by {}
                } else {
                    assert(!(own[0].0.position is Some));
                }
            },
            None => {
                assert(tree_own(*t) =~= Seq::<(LinkNodeV, Seq<char>)>::empty());
            },
        }
    }
    assert(own_ok == all_positioned(tree_own(*t)));
    let mut ok = own_ok;
    let mut i: usize = 0;
    assert(t.children@.take(0) =~= Seq::<MdTree>::empty());
    while i < t.children.len()
        invariant
            i <= t.children@.len(),
            ok == all_positioned(tree_own(*t) + trees_links(t.children@.take(i as int))),
        decreases t.children@.len() - i,
    {
        proof {
            assert(decreases_to!(*t => t.children));
            assert(decreases_to!(t.children => t.children@));
            assert(decreases_to!(t.children@ => t.children@[i as int]));
        }
        let child_ok = links_positioned(&t.children[i]);
        proof {
            let tk = t.children@.take(i + 1);
            assert(tk.drop_last() =~= t.children@.take(i as int));
            assert(tk.last() == t.children@[i as int]);
            let before = tree_own(*t) + trees_links(t.children@.take(i as int));
            assert(tree_own(*t) + trees_links(tk) =~= before + tree_links(t.children@[i as int]));
            lemma_positioned_concat(before, tree_links(t.children@[i as int]));
        }
        ok = ok && child_ok;
        i = i + 1;
    }
    assert(t.children@.take(t.children@.len() as int) =~= t.children@);
    ok
}

/// [`mdast_find_links`] for any tree: `None` when the tree is not rooted at
/// a document's root or has a link without a position.
pub fn find_links(root_node: &MdTree) -> (res: Option<Vec<MdLink>>)
    ensures
        res is Some <==> (root_node.is_root && all_positioned(tree_links(*root_node))),
        res matches Some(v) ==> v@.map_values(|l: MdLink| l@) == tree_links(*root_node).map_values(|l: (LinkNodeV, Seq<char>)| md_link_of(l)),
{
    if !root_node.is_root || !links_positioned(root_node) {
        return None;
    }
    Some(mdast_find_links(root_node))
}

} // verus!
