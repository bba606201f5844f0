//! The traversal: a depth-first, pre-order walk over a directory subtree that
//! appends one entry per visited node to the shared model and returns the
//! flattened list of visited paths.
//!
//! The subtree is taken as a value of [`FsNode`]: the base name, the
//! directory and symbolic-link flags, whether listing the node's children
//! succeeds, and the children themselves, in listing order. The caller that
//! talks to the real filesystem builds these values (or drives the same
//! per-child decisions through [`root_entry`], [`child_entry`] and
//! [`should_recurse`]); the traversal itself is ordinary computation.

use crate::model::{TreeEntry, TreeEntryV, TreeModel};
use vstd::prelude::*;
use vstd::string::StringExecFns;

verus! {

/// One filesystem node as the walker sees it: its base name, what the
/// metadata said of it, whether listing its children succeeds (for a
/// non-directory or an unreadable directory it does not), and its children in
/// listing order.
pub struct FsNode {
    pub name: String,
    pub is_dir: bool,
    pub is_symlink: bool,
    pub listable: bool,
    pub children: Vec<FsNode>,
}

/// The entry the walker records for a node seen at the given depth.
pub open spec fn entry_val(name: Seq<char>, is_dir: bool, depth: nat) -> TreeEntryV {
    TreeEntryV { name, is_dir, depth }
}

/// The entry recorded for this node at the given depth. The recorded
/// directory flag is the node's *own* type: a symbolic link is itself not a
/// directory, whatever its target is, even though the followed metadata
/// (`n.is_dir`) may say otherwise.
pub open spec fn entry_view(n: FsNode, depth: nat) -> TreeEntryV {
    entry_val(n.name@, n.is_dir && !n.is_symlink, depth)
}

/// The walker descends into a child exactly when it is a directory and not a
/// symbolic link, and listing it succeeds.
pub open spec fn descends(n: FsNode) -> bool {
    n.is_dir && !n.is_symlink && n.listable
}

/// The full path of a child: its parent's path, a separator, its name.
pub open spec fn join(p: Seq<char>, name: Seq<char>) -> Seq<char> {
    p + "/"@ + name
}

/// Height of a subtree: 1 for the node plus the tallest child.
pub open spec fn height(n: FsNode) -> nat
    decreases n,
{
    1 + height_children(n.children@)
}

/// Height of the tallest node among `cs`; 0 when there is none.
pub open spec fn height_children(cs: Seq<FsNode>) -> nat
    decreases cs,
{
    if cs.len() == 0 {
        0
    } else {
        let rest = height_children(cs.drop_last());
        let last = height(cs.last());
        if last > rest {
            last
        } else {
            rest
        }
    }
}

/// The entries recorded while handling one child at the given depth: the
/// child's own entry, then — when the walker descends into it — its
/// descendants' entries.
pub open spec fn child_entries(c: FsNode, depth: nat) -> Seq<TreeEntryV>
    decreases c,
{
    seq![entry_view(c, depth)] + if descends(c) {
        children_entries(c.children@, depth + 1)
    } else {
        Seq::empty()
    }
}

/// The entries recorded for a listing, children left to right.
pub open spec fn children_entries(cs: Seq<FsNode>, depth: nat) -> Seq<TreeEntryV>
    decreases cs,
{
    if cs.len() == 0 {
        Seq::empty()
    } else {
        children_entries(cs.drop_last(), depth) + child_entries(cs.last(), depth)
    }
}

/// Everything one traversal call appends to the model: nothing when the
/// listing fails; otherwise the root's own entry (at the top call only,
/// depth 0) followed by the children's entries in pre-order.
pub open spec fn walk_entries(node: FsNode, depth: nat) -> Seq<TreeEntryV>
    decreases node,
{
    if !node.listable {
        Seq::empty()
    } else {
        (if depth == 0 {
            seq![entry_view(node, 0)]
        } else {
            Seq::empty()
        }) + children_entries(node.children@, depth + 1)
    }
}

/// The paths gathered while handling one child below the parent path `p`.
pub open spec fn child_paths(c: FsNode, p: Seq<char>) -> Seq<Seq<char>>
    decreases c,
{
    seq![join(p, c.name@)] + if descends(c) {
        children_paths(c.children@, join(p, c.name@))
    } else {
        Seq::empty()
    }
}

/// The paths gathered for a listing, children left to right.
pub open spec fn children_paths(cs: Seq<FsNode>, p: Seq<char>) -> Seq<Seq<char>>
    decreases cs,
{
    if cs.len() == 0 {
        Seq::empty()
    } else {
        children_paths(cs.drop_last(), p) + child_paths(cs.last(), p)
    }
}

/// Everything one traversal call returns: the visited paths in pre-order.
/// The root's own path is not among them.
pub open spec fn walk_paths(node: FsNode, p: Seq<char>) -> Seq<Seq<char>>
    decreases node,
{
    if !node.listable {
        Seq::empty()
    } else {
        children_paths(node.children@, p)
    }
}

/// One visited node, with the depth it was seen at and its full path.
pub struct Visit {
    pub node: FsNode,
    pub depth: nat,
    pub path: Seq<char>,
}

/// The entry recorded for a visit.
pub open spec fn visit_entry(v: Visit) -> TreeEntryV {
    entry_view(v.node, v.depth)
}

/// The nodes visited while handling one child: the child itself, then — when
/// the walker descends into it — the nodes of its subtree. This enumerates
/// exactly the nodes reachable from the child without passing through a
/// symbolic link or an unlistable directory, each exactly once.
pub open spec fn child_visits(c: FsNode, depth: nat, p: Seq<char>) -> Seq<Visit>
    decreases c,
{
    seq![(Visit { node: c, depth, path: join(p, c.name@) })] + if descends(c) {
        children_visits(c.children@, depth + 1, join(p, c.name@))
    } else {
        Seq::empty()
    }
}

/// The nodes visited for a listing, children left to right.
pub open spec fn children_visits(cs: Seq<FsNode>, depth: nat, p: Seq<char>) -> Seq<Visit>
    decreases cs,
{
    if cs.len() == 0 {
        Seq::empty()
    } else {
        children_visits(cs.drop_last(), depth, p) + child_visits(cs.last(), depth, p)
    }
}

/// All nodes one traversal call visits: the root itself (at the top call
/// only), then its subtree in pre-order.
pub open spec fn walk_visits(node: FsNode, depth: nat, p: Seq<char>) -> Seq<Visit>
    decreases node,
{
    if !node.listable {
        Seq::empty()
    } else {
        (if depth == 0 {
            seq![(Visit { node, depth: 0, path: p })]
        } else {
            Seq::empty()
        }) + children_visits(node.children@, depth + 1, p)
    }
}

proof fn lemma_child_visits_align(c: FsNode, d: nat, p: Seq<char>)
    ensures
        child_entries(c, d).len() == child_visits(c, d, p).len(),
        child_paths(c, p).len() == child_visits(c, d, p).len(),
        forall|k: int| 0 <= k < child_visits(c, d, p).len() ==> child_entries(c, d)[k]
            == visit_entry(#[trigger] child_visits(c, d, p)[k]),
        forall|k: int| 0 <= k < child_visits(c, d, p).len() ==> child_paths(c, p)[k] == (
        #[trigger] child_visits(c, d, p)[k]).path,
    decreases c,
{
    if descends(c) {
        lemma_children_visits_align(c.children@, (d + 1) as nat, join(p, c.name@));
    }
}

proof fn lemma_children_visits_align(cs: Seq<FsNode>, d: nat, p: Seq<char>)
    ensures
        children_entries(cs, d).len() == children_visits(cs, d, p).len(),
        children_paths(cs, p).len() == children_visits(cs, d, p).len(),
        forall|k: int| 0 <= k < children_visits(cs, d, p).len() ==> children_entries(cs, d)[k]
            == visit_entry(#[trigger] children_visits(cs, d, p)[k]),
        forall|k: int| 0 <= k < children_visits(cs, d, p).len() ==> children_paths(cs, p)[k] == (
        #[trigger] children_visits(cs, d, p)[k]).path,
    decreases cs,
{
    if cs.len() > 0 {
        lemma_children_visits_align(cs.drop_last(), d, p);
        lemma_child_visits_align(cs.last(), d, p);
    }
}

/// Law: the entries a traversal appends are exactly the nodes reachable from
/// the root without following symbolic links (and below readable directories
/// only), each appended exactly once and in discovery order: the k-th
/// appended entry is the display identity of the k-th visited node.
pub proof fn lemma_entries_are_visited_nodes(node: FsNode, depth: nat, p: Seq<char>)
    ensures
        walk_entries(node, depth).len() == walk_visits(node, depth, p).len(),
        forall|k: int| 0 <= k < walk_visits(node, depth, p).len() ==> walk_entries(node, depth)[k]
            == visit_entry(#[trigger] walk_visits(node, depth, p)[k]),
{
    if node.listable {
        lemma_children_visits_align(node.children@, (depth + 1) as nat, p);
    }
}

/// Law: the paths a traversal returns are the visited nodes' paths in the
/// same order, the root's own path left out.
pub proof fn lemma_paths_are_visited_nodes(node: FsNode, p: Seq<char>)
    requires
        node.listable,
    ensures
        walk_paths(node, p).len() + 1 == walk_visits(node, 0, p).len(),
        forall|k: int| 0 <= k < walk_paths(node, p).len() ==> walk_paths(node, p)[k] == (
        #[trigger] walk_visits(node, 0, p)[k + 1]).path,
{
    lemma_children_visits_align(node.children@, 1, p);
}

proof fn lemma_height_child_le(cs: Seq<FsNode>, i: int)
    requires
        0 <= i < cs.len(),
    ensures
        height(cs[i]) <= height_children(cs),
    decreases cs,
{
    if i == cs.len() - 1 {
        assert(cs.last() == cs[i]);
    } else {
        lemma_height_child_le(cs.drop_last(), i);
        assert(cs.drop_last()[i] == cs[i]);
    }
}

/// The walker descends into a child exactly when it is a directory that is
/// not a symbolic link.
pub fn should_recurse(is_dir: bool, is_symlink: bool) -> (r: bool)
    ensures
        r == (is_dir && !is_symlink),
{
    is_dir && !is_symlink
}

/// The entry recorded for a child with the given name and metadata at the
/// given depth. `is_dir` is what the followed metadata says; the recorded
/// flag is the node's own type, so a symbolic link is recorded as a
/// non-directory whatever it points to.
pub fn child_entry(name: String, is_dir: bool, is_symlink: bool, depth: u32) -> (e: TreeEntry)
    ensures
        e@ == entry_val(name@, is_dir && !is_symlink, depth as nat),
{
    TreeEntry { name, is_dir: is_dir && !is_symlink, depth }
}

/// The entry recorded for the traversal root itself, at depth 0, under the
/// same policy as every other entry.
pub fn root_entry(name: String, is_dir: bool, is_symlink: bool) -> (e: TreeEntry)
    ensures
        e@ == entry_val(name@, is_dir && !is_symlink, 0),
{
    child_entry(name, is_dir, is_symlink, 0)
}

/// The full path of a child below the given parent path.
pub fn join_path(p: &String, name: &String) -> (r: String)
    ensures
        r@ == join(p@, name@),
{
    let mut r = p.clone();
    r.append("/");
    r.append(name.as_str());
    r
}

/// One traversal call, depth-first and pre-order: appends `walk_entries` to
/// the shared model, in order, and returns exactly the visited paths
/// (`walk_paths`). A failed listing contributes nothing; a failed subtree
/// never disturbs what was already appended for its siblings.
pub fn collect_dirs(path: &String, node: &FsNode, shared_tree: &mut TreeModel, depth: u32) -> (dirs:
    Vec<String>)
    requires
        depth + height(*node) <= u32::MAX,
    ensures
        final(shared_tree)@ == old(shared_tree)@ + walk_entries(*node, depth as nat),
        dirs@.map_values(|s: String| s@) == walk_paths(*node, path@),
    decreases height(*node),
{
    let mut dirs: Vec<String> = Vec::new();
    if !node.listable {
        proof {
            assert(shared_tree@ =~= old(shared_tree)@ + walk_entries(*node, depth as nat));
            assert(dirs@.map_values(|s: String| s@) =~= walk_paths(*node, path@));
        }
        return dirs;
    }
    let ghost root_part: Seq<TreeEntryV> = if depth == 0 {
        seq![entry_view(*node, 0)]
    } else {
        Seq::empty()
    };
    if depth == 0 {
        let e = root_entry(node.name.clone(), node.is_dir, node.is_symlink);
        shared_tree.add_entry(e);
    }
    proof {
        assert(shared_tree@ =~= old(shared_tree)@ + root_part);
        assert(node.children@.subrange(0, 0) =~= Seq::<FsNode>::empty());
    }
    let child_depth = depth + 1;
    let mut i: usize = 0;
    while i < node.children.len()
        invariant
            i <= node.children.len(),
            node.listable,
            child_depth == depth + 1,
            depth + height(*node) <= u32::MAX,
            root_part == (if depth == 0 {
                seq![entry_view(*node, 0)]
            } else {
                Seq::<TreeEntryV>::empty()
            }),
            shared_tree@ == old(shared_tree)@ + root_part + children_entries(
                node.children@.subrange(0, i as int),
                child_depth as nat,
            ),
            dirs@.map_values(|s: String| s@) == children_paths(
                node.children@.subrange(0, i as int),
                path@,
            ),
        decreases node.children.len() - i,
    {
        let ghost prev_entries = shared_tree@;
        let child = &node.children[i];
        proof {
            lemma_height_child_le(node.children@, i as int);
        }
        let e = child_entry(child.name.clone(), child.is_dir, child.is_symlink, child_depth);
        shared_tree.add_entry(e);
        let chosen_path = join_path(path, &child.name);
        let ghost chosen_view = chosen_path@;
        if should_recurse(child.is_dir, child.is_symlink) {
            dirs.push(chosen_path.clone());
            let mut sub = collect_dirs(&chosen_path, child, shared_tree, child_depth);
            dirs.append(&mut sub);
        } else {
            dirs.push(chosen_path);
        }
        proof {
            let cs = node.children@;
            let cd = child_depth as nat;
            let next = cs.subrange(0, i + 1);
            assert(*child == cs[i as int]);
            assert(next.drop_last() =~= cs.subrange(0, i as int));
            assert(next.last() == cs[i as int]);
            assert(children_entries(next, cd) == children_entries(cs.subrange(0, i as int), cd)
                + child_entries(cs[i as int], cd));
            assert(children_paths(next, path@) == children_paths(cs.subrange(0, i as int), path@)
                + child_paths(cs[i as int], path@));
            assert(child_entries(cs[i as int], cd) == seq![entry_view(cs[i as int], cd)] + (
            if descends(cs[i as int]) {
                children_entries(cs[i as int].children@, cd + 1)
            } else {
                Seq::<TreeEntryV>::empty()
            }));
            assert(child_paths(cs[i as int], path@) == seq![join(path@, cs[i as int].name@)] + (
            if descends(cs[i as int]) {
                children_paths(cs[i as int].children@, join(path@, cs[i as int].name@))
            } else {
                Seq::<Seq<char>>::empty()
            }));
            assert(walk_entries(cs[i as int], cd) == (if cs[i as int].listable {
                children_entries(cs[i as int].children@, cd + 1)
            } else {
                Seq::<TreeEntryV>::empty()
            }));
            assert(walk_paths(cs[i as int], chosen_view) == (if cs[i as int].listable {
                children_paths(cs[i as int].children@, chosen_view)
            } else {
                Seq::<Seq<char>>::empty()
            }));
            assert(prev_entries.push(e@) =~= prev_entries + seq![
                entry_view(cs[i as int], cd),
            ]);
            assert(shared_tree@ =~= old(shared_tree)@ + root_part + children_entries(next, cd));
            assert(dirs@.map_values(|s: String| s@) =~= children_paths(next, path@));
        }
        i = i + 1;
    }
    proof {
        assert(node.children@.subrange(0, node.children@.len() as int) =~= node.children@);
        assert(shared_tree@ =~= old(shared_tree)@ + walk_entries(*node, depth as nat));
    }
    dirs
}

proof fn lemma_children_depths(cs: Seq<FsNode>, d: nat)
    ensures
        forall|k: int| 0 <= k < children_entries(cs, d).len() ==> (#[trigger] children_entries(
            cs,
            d,
        )[k]).depth >= d,
    decreases cs,
{
    if cs.len() > 0 {
        lemma_children_depths(cs.drop_last(), d);
        lemma_pre_order(cs.last(), d);
        let a = children_entries(cs.drop_last(), d);
        let b = child_entries(cs.last(), d);
        assert forall|k: int| 0 <= k < children_entries(cs, d).len() implies (
        #[trigger] children_entries(cs, d)[k]).depth >= d by {
            if k < a.len() {
                assert(children_entries(cs, d)[k] == a[k]);
            } else {
                assert(children_entries(cs, d)[k] == b[k - a.len()]);
                if k - a.len() >= 1 {
                    assert(b[k - a.len()].depth > d);
                }
            }
        }
    }
}

/// Law: insertion order is a valid pre-order traversal. The entries of one
/// child's subtree form one contiguous block; the child's own entry stands
/// first in it, and every descendant's entry comes after it, strictly deeper.
pub proof fn lemma_pre_order(c: FsNode, d: nat)
    ensures
        child_entries(c, d).len() >= 1,
        child_entries(c, d)[0] == entry_view(c, d),
        forall|k: int| 1 <= k < child_entries(c, d).len() ==> (#[trigger] child_entries(
            c,
            d,
        )[k]).depth > d,
    decreases c,
{
    if descends(c) {
        lemma_children_depths(c.children@, (d + 1) as nat);
        let b = children_entries(c.children@, d + 1);
        assert forall|k: int| 1 <= k < child_entries(c, d).len() implies (#[trigger] child_entries(
            c,
            d,
        )[k]).depth > d by {
            assert(child_entries(c, d)[k] == b[k - 1]);
        }
    }
}

/// Law: the same, seen from the traversal root: its entry is appended first,
/// and every other entry lies strictly below depth 0.
pub proof fn lemma_pre_order_root(node: FsNode)
    requires
        node.listable,
    ensures
        walk_entries(node, 0).len() >= 1,
        walk_entries(node, 0)[0] == entry_view(node, 0),
        forall|k: int| 1 <= k < walk_entries(node, 0).len() ==> (#[trigger] walk_entries(
            node,
            0,
        )[k]).depth >= 1,
{
    lemma_children_depths(node.children@, 1);
}

/// Law: error isolation between siblings. Whatever holds of the other
/// children of a listing — unreadable, symbolic links, failed subtrees — each
/// child's own entry is among the entries recorded for that listing.
pub proof fn lemma_sibling_isolation(cs: Seq<FsNode>, d: nat, i: int)
    requires
        0 <= i < cs.len(),
    ensures
        children_entries(cs, d).contains(entry_view(cs[i], d)),
    decreases cs,
{
    if i == cs.len() - 1 {
        lemma_pre_order(cs.last(), d);
        let at = children_entries(cs.drop_last(), d).len() as int;
        assert(children_entries(cs, d)[at] == entry_view(cs[i], d));
    } else {
        lemma_sibling_isolation(cs.drop_last(), d, i);
        assert(cs.drop_last()[i] == cs[i]);
        let prior = children_entries(cs.drop_last(), d);
        let j = choose|j: int| 0 <= j < prior.len() && prior[j] == entry_view(cs[i], d);
        assert(children_entries(cs, d)[j] == entry_view(cs[i], d));
    }
}

/// How many separators a path holds.
pub open spec fn slash_count(s: Seq<char>) -> nat
    decreases s.len(),
{
    if s.len() == 0 {
        0
    } else {
        slash_count(s.drop_last()) + (if s.last() == '/' {
            1nat
        } else {
            0nat
        })
    }
}

/// How many components a path holds: one more than its separators.
pub open spec fn component_count(s: Seq<char>) -> nat {
    slash_count(s) + 1
}

/// A plain name: no separator in it, as the filesystem guarantees of base
/// names.
pub open spec fn slash_free(s: Seq<char>) -> bool {
    slash_count(s) == 0
}

/// Every name in the subtree is a plain name.
pub open spec fn tree_slash_free(n: FsNode) -> bool
    decreases n,
{
    slash_free(n.name@) && children_slash_free(n.children@)
}

/// Every name in each of the subtrees is a plain name.
pub open spec fn children_slash_free(cs: Seq<FsNode>) -> bool
    decreases cs,
{
    cs.len() == 0 || (children_slash_free(cs.drop_last()) && tree_slash_free(cs.last()))
}

proof fn lemma_slash_count_add(a: Seq<char>, b: Seq<char>)
    ensures
        slash_count(a + b) == slash_count(a) + slash_count(b),
    decreases b.len(),
{
    if b.len() == 0 {
        assert(a + b =~= a);
    } else {
        lemma_slash_count_add(a, b.drop_last());
        assert((a + b).drop_last() =~= a + b.drop_last());
        assert((a + b).last() == b.last());
    }
}

proof fn lemma_slash_count_join(p: Seq<char>, name: Seq<char>)
    requires
        slash_free(name),
    ensures
        slash_count(join(p, name)) == slash_count(p) + 1,
{
    reveal_strlit("/");
    assert("/"@.drop_last() =~= Seq::<char>::empty());
    assert(slash_count(Seq::<char>::empty()) == 0);
    assert("/"@.last() == '/');
    assert(slash_count("/"@) == 1);
    lemma_slash_count_add(p, "/"@);
    lemma_slash_count_add(p + "/"@, name);
}

proof fn lemma_child_visit_depths(c: FsNode, d: nat, p: Seq<char>)
    requires
        tree_slash_free(c),
    ensures
        forall|k: int| 0 <= k < child_visits(c, d, p).len() ==> slash_count(
            (#[trigger] child_visits(c, d, p)[k]).path,
        ) + d == slash_count(p) + 1 + child_visits(c, d, p)[k].depth,
    decreases c,
{
    lemma_slash_count_join(p, c.name@);
    if descends(c) {
        lemma_children_visit_depths(c.children@, (d + 1) as nat, join(p, c.name@));
        let b = children_visits(c.children@, (d + 1) as nat, join(p, c.name@));
        assert forall|k: int| 0 <= k < child_visits(c, d, p).len() implies slash_count(
            (#[trigger] child_visits(c, d, p)[k]).path,
        ) + d == slash_count(p) + 1 + child_visits(c, d, p)[k].depth by {
            if k >= 1 {
                assert(child_visits(c, d, p)[k] == b[k - 1]);
            }
        }
    }
}

proof fn lemma_children_visit_depths(cs: Seq<FsNode>, d: nat, p: Seq<char>)
    requires
        children_slash_free(cs),
    ensures
        forall|k: int| 0 <= k < children_visits(cs, d, p).len() ==> slash_count(
            (#[trigger] children_visits(cs, d, p)[k]).path,
        ) + d == slash_count(p) + 1 + children_visits(cs, d, p)[k].depth,
    decreases cs,
{
    if cs.len() > 0 {
        lemma_children_visit_depths(cs.drop_last(), d, p);
        lemma_child_visit_depths(cs.last(), d, p);
        let a = children_visits(cs.drop_last(), d, p);
        let b = child_visits(cs.last(), d, p);
        assert forall|k: int| 0 <= k < children_visits(cs, d, p).len() implies slash_count(
            (#[trigger] children_visits(cs, d, p)[k]).path,
        ) + d == slash_count(p) + 1 + children_visits(cs, d, p)[k].depth by {
            if k < a.len() {
                assert(children_visits(cs, d, p)[k] == a[k]);
            } else {
                assert(children_visits(cs, d, p)[k] == b[k - a.len()]);
            }
        }
    }
}

/// Law: an entry's depth is its path's component count minus the root path's
/// component count. The k-th returned path belongs to the (k+1)-th appended
/// entry (the first entry is the root's own, at depth 0).
pub proof fn lemma_depth_counts_components(node: FsNode, p: Seq<char>)
    requires
        node.listable,
        tree_slash_free(node),
    ensures
        walk_entries(node, 0).len() == walk_paths(node, p).len() + 1,
        walk_entries(node, 0)[0].depth == 0,
        forall|k: int| 0 <= k < walk_paths(node, p).len() ==> component_count(
            #[trigger] walk_paths(node, p)[k],
        ) == component_count(p) + walk_entries(node, 0)[k + 1].depth,
{
    lemma_entries_are_visited_nodes(node, 0, p);
    lemma_paths_are_visited_nodes(node, p);
    lemma_children_visit_depths(node.children@, 1, p);
    let vs = walk_visits(node, 0, p);
    let b = children_visits(node.children@, 1, p);
    assert forall|k: int| 0 <= k < walk_paths(node, p).len() implies component_count(
        #[trigger] walk_paths(node, p)[k],
    ) == component_count(p) + walk_entries(node, 0)[k + 1].depth by {
        assert(vs[k + 1] == b[k]);
        assert(slash_count(b[k].path) + 1 == slash_count(p) + 1 + b[k].depth);
        assert(walk_paths(node, p)[k] == vs[k + 1].path);
        assert(walk_entries(node, 0)[k + 1] == visit_entry(vs[k + 1]));
    }
}

/// Law: a symbolic link is recorded as a leaf. It contributes exactly one
/// entry — its own, recorded as a non-directory since the link itself is
/// none, whatever it points to — and no descendant entries.
pub proof fn lemma_symlink_is_leaf(c: FsNode, d: nat)
    requires
        c.is_symlink,
    ensures
        child_entries(c, d) == seq![entry_view(c, d)],
        !entry_view(c, d).is_dir,
{
    assert(child_entries(c, d) =~= seq![entry_view(c, d)]);
}

} // verus!
