use vstd::prelude::*;
use crate::item::FileType;
use crate::path::{spec_hidden, spec_path_name};
use crate::snapshot::{listing_under, node_under, nodes_under, DirListing, EntryNode};
use crate::tree::{scan_listing, scan_node, scan_nodes, spec_descends, spec_skipped, TreeMaker};

verus! {

/// `p` lies strictly below `base` and every component below `base` — the
/// final one included — is unhidden.
pub open spec fn extends_unhidden(p: Seq<Seq<char>>, base: Seq<Seq<char>>) -> bool {
    &&& p.len() > base.len()
    &&& p.subrange(0, base.len() as int) == base
    &&& forall|j: int| base.len() <= j < p.len() ==> !spec_hidden(#[trigger] p[j])
}

/// With the hidden filter on, no emitted item's path has a hidden final
/// component, and a hidden directory's whole subtree is pruned: every
/// emitted path descends from the scanned directory through unhidden
/// components only.
pub proof fn lemma_hidden_pruned(m: TreeMaker, l: DirListing, base: Seq<Seq<char>>, i: int)
    requires
        !m.show_hidden,
        listing_under(l, base),
        0 <= i < scan_listing(m, l).len(),
        scan_listing(m, l)[i] is Ok,
    ensures
        extends_unhidden(scan_listing(m, l)[i]->Ok_0, base),
    decreases l,
{
    match l.entries {
        None => {},
        Some(v) => {
            lemma_hidden_pruned_nodes(m, v@, base, i);
        },
    }
}

proof fn lemma_hidden_pruned_nodes(m: TreeMaker, nodes: Seq<EntryNode>, base: Seq<Seq<char>>, i: int)
    requires
        !m.show_hidden,
        nodes_under(nodes, base),
        0 <= i < scan_nodes(m, nodes).len(),
        scan_nodes(m, nodes)[i] is Ok,
    ensures
        extends_unhidden(scan_nodes(m, nodes)[i]->Ok_0, base),
    decreases nodes,
{
    let left = scan_nodes(m, nodes.drop_last());
    let right = scan_node(m, nodes.last());
    assert(nodes.len() > 0);
    assert(nodes_under(nodes.drop_last(), base)) by {
        assert(forall|j: int|
            0 <= j < nodes.drop_last().len() ==> #[trigger] nodes.drop_last()[j] == nodes[j]);
    }
    if i < left.len() {
        lemma_hidden_pruned_nodes(m, nodes.drop_last(), base, i);
    } else {
        assert(node_under(nodes.last(), base));
        lemma_hidden_pruned_node(m, nodes.last(), base, i - left.len());
    }
}

proof fn lemma_hidden_pruned_node(m: TreeMaker, node: EntryNode, base: Seq<Seq<char>>, k: int)
    requires
        !m.show_hidden,
        node_under(node, base),
        0 <= k < scan_node(m, node).len(),
        scan_node(m, node)[k] is Ok,
    ensures
        extends_unhidden(scan_node(m, node)[k]->Ok_0, base),
    decreases node,
{
    match node {
        EntryNode::Failed { .. } => {},
        EntryNode::Entry { path, kind, listing } => {
            if spec_skipped(m, path@) {
            } else {
                match kind {
                    FileType::File => {
                        let p = path@;
                        assert(p.subrange(0, base.len() as int) =~= p.drop_last());
                        assert(p.last() == spec_path_name(p));
                        assert(!spec_hidden(p.last()));
                        assert(forall|j: int|
                            base.len() <= j < p.len() ==> #[trigger] p[j] == p.last());
                    },
                    FileType::Symlink => {},
                    FileType::Directory => {
                        if spec_descends(m, path@) {
                            lemma_hidden_pruned(m, listing, path@, k);
                            let p = scan_listing(m, listing)[k]->Ok_0;
                            assert(p.subrange(0, path@.len() as int) == path@);
                            assert(p.subrange(0, base.len() as int) =~= path@.subrange(
                                0,
                                base.len() as int,
                            )) by {
                                assert(forall|j: int|
                                    0 <= j < base.len() ==> #[trigger] p.subrange(
                                        0,
                                        base.len() as int,
                                    )[j] == p.subrange(0, path@.len() as int)[j]);
                            }
                            assert(path@.subrange(0, base.len() as int) =~= path@.drop_last());
                            assert(!spec_hidden(path@.last()));
                            assert forall|j: int|
                                base.len() <= j < p.len() implies !spec_hidden(#[trigger] p[j]) by {
                                if j < path@.len() {
                                    assert(p[j] == p.subrange(0, path@.len() as int)[j]);
                                    assert(p[j] == path@[j]);
                                    assert(j == base.len());
                                    assert(path@[j] == path@.last());
                                }
                            }
                        }
                    },
                }
            }
        },
    }
}

/// With a non-negative depth limit `d`, every emitted item lies at depth
/// at most `d`, depth being the path's component count minus the root's
/// minus one; and (see [`lemma_deep_dir_not_recursed`]) no directory at
/// depth `d` or beyond is ever descended into.
pub proof fn lemma_depth_bounded(m: TreeMaker, l: DirListing, base: Seq<Seq<char>>, i: int)
    requires
        m.max_depth >= 0,
        listing_under(l, base),
        m.root_len <= base.len() <= m.root_len + m.max_depth,
        0 <= i < scan_listing(m, l).len(),
        scan_listing(m, l)[i] is Ok,
    ensures
        m.root_len + 1 <= scan_listing(m, l)[i]->Ok_0.len() <= m.root_len + m.max_depth + 1,
    decreases l,
{
    match l.entries {
        None => {},
        Some(v) => {
            lemma_depth_bounded_nodes(m, v@, base, i);
        },
    }
}

proof fn lemma_depth_bounded_nodes(m: TreeMaker, nodes: Seq<EntryNode>, base: Seq<Seq<char>>, i: int)
    requires
        m.max_depth >= 0,
        nodes_under(nodes, base),
        m.root_len <= base.len() <= m.root_len + m.max_depth,
        0 <= i < scan_nodes(m, nodes).len(),
        scan_nodes(m, nodes)[i] is Ok,
    ensures
        m.root_len + 1 <= scan_nodes(m, nodes)[i]->Ok_0.len() <= m.root_len + m.max_depth + 1,
    decreases nodes,
{
    let left = scan_nodes(m, nodes.drop_last());
    assert(nodes_under(nodes.drop_last(), base)) by {
        assert(forall|j: int|
            0 <= j < nodes.drop_last().len() ==> #[trigger] nodes.drop_last()[j] == nodes[j]);
    }
    if i < left.len() {
        lemma_depth_bounded_nodes(m, nodes.drop_last(), base, i);
    } else {
        assert(node_under(nodes.last(), base));
        lemma_depth_bounded_node(m, nodes.last(), base, i - left.len());
    }
}

proof fn lemma_depth_bounded_node(m: TreeMaker, node: EntryNode, base: Seq<Seq<char>>, k: int)
    requires
        m.max_depth >= 0,
        node_under(node, base),
        m.root_len <= base.len() <= m.root_len + m.max_depth,
        0 <= k < scan_node(m, node).len(),
        scan_node(m, node)[k] is Ok,
    ensures
        m.root_len + 1 <= scan_node(m, node)[k]->Ok_0.len() <= m.root_len + m.max_depth + 1,
    decreases node,
{
    match node {
        EntryNode::Failed { .. } => {},
        EntryNode::Entry { path, kind, listing } => {
            if !spec_skipped(m, path@) && kind == FileType::Directory && spec_descends(m, path@) {
                lemma_depth_bounded(m, listing, path@, k);
            }
        },
    }
}

/// A directory already at the depth limit or beyond contributes nothing:
/// the traversal does not descend into it.
pub proof fn lemma_deep_dir_not_recursed(m: TreeMaker, path: crate::path::TreePath, listing: DirListing)
    requires
        m.max_depth >= 0,
        path@.len() - m.root_len - 1 >= m.max_depth,
    ensures
        scan_node(
            m,
            EntryNode::Entry { path, kind: FileType::Directory, listing },
        ) == Seq::<Result<Seq<Seq<char>>, Seq<char>>>::empty(),
{
    assert(!spec_descends(m, path@));
}

/// The paths of every file the scan can reach in `l`: unhidden (unless
/// hidden entries are shown), not a symbolic link, and below readable,
/// unpruned directories only — with no regard to any depth limit.
pub open spec fn visible_files_listing(show_hidden: bool, l: DirListing) -> Seq<Seq<Seq<char>>>
    decreases l,
{
    match l.entries {
        None => Seq::empty(),
        Some(v) => visible_files_nodes(show_hidden, v@),
    }
}

pub open spec fn visible_files_nodes(show_hidden: bool, nodes: Seq<EntryNode>) -> Seq<
    Seq<Seq<char>>,
>
    decreases nodes,
{
    if nodes.len() == 0 {
        Seq::empty()
    } else {
        visible_files_nodes(show_hidden, nodes.drop_last()) + visible_files_node(
            show_hidden,
            nodes.last(),
        )
    }
}

pub open spec fn visible_files_node(show_hidden: bool, node: EntryNode) -> Seq<Seq<Seq<char>>>
    decreases node,
{
    match node {
        EntryNode::Failed { .. } => Seq::empty(),
        EntryNode::Entry { path, kind, listing } => {
            if !show_hidden && spec_hidden(spec_path_name(path@)) {
                Seq::empty()
            } else {
                match kind {
                    FileType::File => seq![path@],
                    FileType::Symlink => Seq::empty(),
                    FileType::Directory => visible_files_listing(show_hidden, listing),
                }
            }
        },
    }
}

/// With no depth limit, the scan reaches every reachable file: each path
/// in [`visible_files_listing`] appears as an item of the output,
/// however deep it lies.
pub proof fn lemma_unlimited_depth_reaches(m: TreeMaker, l: DirListing, p: Seq<Seq<char>>)
    requires
        m.max_depth < 0,
        visible_files_listing(m.show_hidden, l).contains(p),
    ensures
        scan_listing(m, l).contains(Ok(p)),
    decreases l,
{
    match l.entries {
        None => {},
        Some(v) => {
            lemma_unlimited_depth_reaches_nodes(m, v@, p);
        },
    }
}

proof fn lemma_unlimited_depth_reaches_nodes(m: TreeMaker, nodes: Seq<EntryNode>, p: Seq<Seq<char>>)
    requires
        m.max_depth < 0,
        visible_files_nodes(m.show_hidden, nodes).contains(p),
    ensures
        scan_nodes(m, nodes).contains(Ok(p)),
    decreases nodes,
{
    assert(nodes.len() > 0);
    let vleft = visible_files_nodes(m.show_hidden, nodes.drop_last());
    let vright = visible_files_node(m.show_hidden, nodes.last());
    let i = choose|i: int| 0 <= i < vleft.len() + vright.len() && (vleft + vright)[i] == p;
    if i < vleft.len() {
        assert(vleft.contains(p)) by {
            assert(vleft[i] == p);
        }
        lemma_unlimited_depth_reaches_nodes(m, nodes.drop_last(), p);
        let w = choose|w: int|
            0 <= w < scan_nodes(m, nodes.drop_last()).len() && scan_nodes(
                m,
                nodes.drop_last(),
            )[w] == Ok::<Seq<Seq<char>>, Seq<char>>(p);
        assert(scan_nodes(m, nodes)[w] == Ok::<Seq<Seq<char>>, Seq<char>>(p));
    } else {
        assert(vright.contains(p)) by {
            assert(vright[i - vleft.len()] == p);
        }
        lemma_unlimited_depth_reaches_node(m, nodes.last(), p);
        let w = choose|w: int|
            0 <= w < scan_node(m, nodes.last()).len() && scan_node(m, nodes.last())[w]
                == Ok::<Seq<Seq<char>>, Seq<char>>(p);
        let left = scan_nodes(m, nodes.drop_last());
        assert(scan_nodes(m, nodes)[left.len() + w] == Ok::<Seq<Seq<char>>, Seq<char>>(p));
    }
}

proof fn lemma_unlimited_depth_reaches_node(m: TreeMaker, node: EntryNode, p: Seq<Seq<char>>)
    requires
        m.max_depth < 0,
        visible_files_node(m.show_hidden, node).contains(p),
    ensures
        scan_node(m, node).contains(Ok(p)),
    decreases node,
{
    match node {
        EntryNode::Failed { .. } => {},
        EntryNode::Entry { path, kind, listing } => {
            match kind {
                FileType::File => {
                    assert(p == path@);
                    assert(scan_node(m, node)[0] == Ok::<Seq<Seq<char>>, Seq<char>>(p));
                },
                FileType::Symlink => {},
                FileType::Directory => {
                    if !spec_skipped(m, path@) {
                        assert(spec_descends(m, path@));
                        lemma_unlimited_depth_reaches(m, listing, p);
                    }
                },
            }
        },
    }
}

/// A symbolic link contributes nothing to the output and is never
/// descended into, whatever lies behind it.
pub proof fn lemma_symlink_invisible(m: TreeMaker, path: crate::path::TreePath, listing: DirListing)
    ensures
        scan_node(
            m,
            EntryNode::Entry { path, kind: FileType::Symlink, listing },
        ) == Seq::<Result<Seq<Seq<char>>, Seq<char>>>::empty(),
{
}

/// Whatever one entry contributes to a directory's output is contributed
/// whole, whatever its siblings did: every element of `scan_node` of
/// `nodes[j]` appears in `scan_nodes` of the whole run.
pub proof fn lemma_entry_output_kept(m: TreeMaker, nodes: Seq<EntryNode>, j: int, k: int)
    requires
        0 <= j < nodes.len(),
        0 <= k < scan_node(m, nodes[j]).len(),
    ensures
        scan_nodes(m, nodes).contains(scan_node(m, nodes[j])[k]),
    decreases nodes,
{
    let left = scan_nodes(m, nodes.drop_last());
    let right = scan_node(m, nodes.last());
    if j == nodes.len() - 1 {
        assert(nodes[j] == nodes.last());
        assert(scan_nodes(m, nodes)[left.len() + k] == scan_node(m, nodes[j])[k]);
    } else {
        assert(nodes.drop_last()[j] == nodes[j]);
        lemma_entry_output_kept(m, nodes.drop_last(), j, k);
        let w = choose|w: int|
            0 <= w < left.len() && left[w] == scan_node(m, nodes[j])[k];
        assert(scan_nodes(m, nodes)[w] == scan_node(m, nodes[j])[k]);
    }
}

/// One entry's failure does not suppress its siblings: the failed entry's
/// error appears in the output, and so does everything any other entry of
/// the same directory contributes.
pub proof fn lemma_error_does_not_suppress(
    m: TreeMaker,
    nodes: Seq<EntryNode>,
    i: int,
    j: int,
    k: int,
)
    requires
        0 <= i < nodes.len(),
        nodes[i] is Failed,
        0 <= j < nodes.len(),
        0 <= k < scan_node(m, nodes[j]).len(),
    ensures
        scan_nodes(m, nodes).contains(Err(nodes[i]->Failed_error@)),
        scan_nodes(m, nodes).contains(scan_node(m, nodes[j])[k]),
{
    assert(scan_node(m, nodes[i])[0] == Err::<Seq<Seq<char>>, Seq<char>>(
        nodes[i]->Failed_error@,
    ));
    lemma_entry_output_kept(m, nodes, i, 0);
    lemma_entry_output_kept(m, nodes, j, k);
}

/// An unreadable directory yields exactly nothing — no items from its
/// subtree and no error either, the one failure the scan swallows.
pub proof fn lemma_unreadable_dir_silent(m: TreeMaker, path: crate::path::TreePath)
    ensures
        scan_node(
            m,
            EntryNode::Entry {
                path,
                kind: FileType::Directory,
                listing: DirListing { entries: None },
            },
        ) == Seq::<Result<Seq<Seq<char>>, Seq<char>>>::empty(),
        scan_listing(m, DirListing { entries: None }) == Seq::<
            Result<Seq<Seq<char>>, Seq<char>>,
        >::empty(),
{
}

/// Scanning is repeatable: the output is a pure function of the
/// configuration and the snapshot, so two scans of an unchanged tree
/// yield identical sequences. `make`'s contract ties each run to
/// [`scan_listing`], and `scan_listing` is deterministic.
pub proof fn lemma_scan_repeatable(m1: TreeMaker, m2: TreeMaker, l1: DirListing, l2: DirListing)
    requires
        m1 == m2,
        l1 == l2,
    ensures
        scan_listing(m1, l1) == scan_listing(m2, l2),
{
}

} // verus!
