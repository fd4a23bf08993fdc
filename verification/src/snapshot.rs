use vstd::prelude::*;
use crate::item::{FileType, ScanError};
use crate::path::TreePath;

verus! {

/// What one directory-listing operation saw: the entries in directory
/// order, or nothing when the directory itself could not be listed.
#[derive(Debug)]
pub struct DirListing {
    pub entries: Option<Vec<EntryNode>>,
}

/// One directory entry as the filesystem reported it: its path and
/// classification, together with — for a directory — the listing of its
/// contents; or the error met while reading or classifying it.
///
/// For a file or a symbolic link the nested listing carries no meaning
/// and is never read; by convention it is left unreadable.
#[derive(Debug)]
pub enum EntryNode {
    Entry { path: TreePath, kind: FileType, listing: DirListing },
    Failed { error: ScanError },
}

/// Every directory node anywhere under `l` has more than `min_len` path
/// components, so the depth subtraction of the traversal cannot go below
/// zero.
pub open spec fn listing_depths_ok(l: DirListing, min_len: nat) -> bool
    decreases l,
{
    match l.entries {
        None => true,
        Some(v) => nodes_depths_ok(v@, min_len),
    }
}

pub open spec fn nodes_depths_ok(nodes: Seq<EntryNode>, min_len: nat) -> bool
    decreases nodes,
{
    forall|i: int| 0 <= i < nodes.len() ==> node_depths_ok(#[trigger] nodes[i], min_len)
}

pub open spec fn node_depths_ok(node: EntryNode, min_len: nat) -> bool
    decreases node,
{
    match node {
        EntryNode::Failed { .. } => true,
        EntryNode::Entry { path, kind, listing } => kind == FileType::Directory ==> {
            &&& path@.len() > min_len
            &&& listing_depths_ok(listing, min_len)
        },
    }
}

/// Every entry anywhere under `l` sits directly under its parent: its
/// path is the parent's path (`base` for the outermost entries) extended
/// by one component. This is how any listing read from a real directory
/// tree is shaped.
pub open spec fn listing_under(l: DirListing, base: Seq<Seq<char>>) -> bool
    decreases l,
{
    match l.entries {
        None => true,
        Some(v) => nodes_under(v@, base),
    }
}

pub open spec fn nodes_under(nodes: Seq<EntryNode>, base: Seq<Seq<char>>) -> bool
    decreases nodes,
{
    forall|i: int| 0 <= i < nodes.len() ==> node_under(#[trigger] nodes[i], base)
}

pub open spec fn node_under(node: EntryNode, base: Seq<Seq<char>>) -> bool
    decreases node,
{
    match node {
        EntryNode::Failed { .. } => true,
        EntryNode::Entry { path, kind, listing } => {
            &&& path@.len() == base.len() + 1
            &&& path@.drop_last() == base
            &&& (kind == FileType::Directory ==> listing_under(listing, path@))
        },
    }
}

/// Checks [`listing_depths_ok`] at run time, so that an unverified caller
/// can establish the precondition of the traversal before invoking it.
pub fn check_depths(l: &DirListing, min_len: usize) -> (b: bool)
    ensures
        b == listing_depths_ok(*l, min_len as nat),
    decreases *l,
{
    match &l.entries {
        None => true,
        Some(entries) => {
            let n = entries.len();
            let mut i: usize = 0;
            let mut ok = true;
            while i < n
                invariant
                    i <= n,
                    n == entries@.len(),
                    l.entries == Some(*entries),
                    ok == nodes_depths_ok(entries@.take(i as int), min_len as nat),
                decreases n - i,
            {
                let node_ok = match &entries[i] {
                    EntryNode::Failed { .. } => true,
                    EntryNode::Entry { path, kind, listing } => {
                        match kind {
                            FileType::Directory => {
                                if crate::path::path_len(path) > min_len {
                                    proof {
                                        let vs: Vec<EntryNode> = l.entries->0;
                                        assert(vs == *entries);
                                        assert(decreases_to!(*l => l.entries));
                                        assert(decreases_to!(l.entries => vs));
                                        assert(decreases_to!(vs => vs[i as int]));
                                        assert(decreases_to!(
                                            vs[i as int] => vs[i as int]->Entry_listing
                                        ));
                                        assert(vs[i as int]->Entry_listing == *listing);
                                        assert(decreases_to!(*l => *listing));
                                    }
                                    check_depths(listing, min_len)
                                } else {
                                    false
                                }
                            },
                            _ => true,
                        }
                    },
                };
                proof {
                    let m = min_len as nat;
                    let s0 = entries@.take(i as int);
                    let s1 = entries@.take(i as int + 1);
                    assert(node_ok == node_depths_ok(entries@[i as int], m));
                    assert(forall|j: int| 0 <= j < i ==> s1[j] == #[trigger] s0[j]);
                    assert(s1[i as int] == entries@[i as int]);
                    if ok && node_ok {
                        assert forall|j: int| 0 <= j < s1.len() implies node_depths_ok(
                            #[trigger] s1[j],
                            m,
                        ) by {
                            if j < i {
                                assert(node_depths_ok(s0[j], m));
                            }
                        }
                    } else if !node_ok {
                        assert(!node_depths_ok(s1[i as int], m));
                        assert(!nodes_depths_ok(s1, m));
                    } else {
                        let j = choose|j: int|
                            0 <= j < s0.len() && !node_depths_ok(#[trigger] s0[j], m);
                        assert(!node_depths_ok(s1[j], m));
                        assert(!nodes_depths_ok(s1, m));
                    }
                }
                ok = ok && node_ok;
                i += 1;
            }
            proof {
                assert(entries@.take(n as int) =~= entries@);
            }
            ok
        },
    }
}

} // verus!
