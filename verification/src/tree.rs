use vstd::prelude::*;
use crate::item::{output_view, FileType, ScanError, TreeItem};
use crate::path::{is_hidden, path_len, path_name, spec_hidden, spec_path_name, TreePath};
use crate::snapshot::{listing_depths_ok, node_depths_ok, nodes_depths_ok, DirListing, EntryNode};

verus! {

/// The traversal engine. One instance fixes a whole scan's configuration:
/// it is constructed once, and the same instance serves every recursive
/// step, so that `root_len` stays anchored to the original scan root.
#[derive(Debug, Clone, Copy, PartialEq, Eq, Structural)]
pub struct TreeMaker {
    /// Maximum recursion depth; negative means unlimited.
    pub max_depth: isize,
    /// The component count of the scanned root, the zero-depth reference.
    pub root_len: usize,
    /// Whether hidden entries (final component starting with a dot) are
    /// kept.
    pub show_hidden: bool,
}

/// Whether the hidden filter drops the entry at `path`.
pub open spec fn spec_skipped(m: TreeMaker, path: Seq<Seq<char>>) -> bool {
    !m.show_hidden && spec_hidden(spec_path_name(path))
}

/// Whether the traversal may descend into the directory at `path`: always
/// when the depth is unlimited, else only while the directory's depth
/// (component count minus `root_len` minus one) is strictly below
/// `max_depth`.
pub open spec fn spec_descends(m: TreeMaker, path: Seq<Seq<char>>) -> bool {
    m.max_depth < 0 || path.len() - m.root_len - 1 < m.max_depth
}

/// The output of the scan for one directory listing: nothing for an
/// unlistable directory, else each entry's output in directory order.
pub open spec fn scan_listing(m: TreeMaker, l: DirListing) -> Seq<
    Result<Seq<Seq<char>>, Seq<char>>,
>
    decreases l,
{
    match l.entries {
        None => Seq::empty(),
        Some(v) => scan_nodes(m, v@),
    }
}

/// The concatenated outputs of a run of entries, in order.
pub open spec fn scan_nodes(m: TreeMaker, nodes: Seq<EntryNode>) -> Seq<
    Result<Seq<Seq<char>>, Seq<char>>,
>
    decreases nodes,
{
    if nodes.len() == 0 {
        Seq::empty()
    } else {
        scan_nodes(m, nodes.drop_last()) + scan_node(m, nodes.last())
    }
}

/// The output of the scan for one entry: its error, if it could not be
/// classified; nothing, if the hidden filter drops it or it is a symbolic
/// link; its path, if it is a file; and the output of its own listing, if
/// it is a directory the traversal descends into.
pub open spec fn scan_node(m: TreeMaker, node: EntryNode) -> Seq<
    Result<Seq<Seq<char>>, Seq<char>>,
>
    decreases node,
{
    match node {
        EntryNode::Failed { error } => seq![Err(error@)],
        EntryNode::Entry { path, kind, listing } => {
            if spec_skipped(m, path@) {
                Seq::empty()
            } else {
                match kind {
                    FileType::File => seq![Ok(path@)],
                    FileType::Symlink => Seq::empty(),
                    FileType::Directory => {
                        if spec_descends(m, path@) {
                            scan_listing(m, listing)
                        } else {
                            Seq::empty()
                        }
                    },
                }
            }
        },
    }
}

impl TreeMaker {
    /// Captures `max_depth` and `show_hidden` verbatim and precomputes the
    /// root's component count once for the whole scan.
    pub fn new(max_depth: isize, root_dir: &TreePath, show_hidden: bool) -> (m: TreeMaker)
        ensures
            m.max_depth == max_depth,
            m.show_hidden == show_hidden,
            m.root_len == root_dir@.len(),
    {
        TreeMaker { max_depth, show_hidden, root_len: path_len(root_dir) }
    }

    /// Scans one directory listing, depth first: every entry in listing
    /// order contributes its error or its item, and a directory that the
    /// depth limit admits contributes its whole subtree's output at the
    /// point where it was encountered. The result is exactly
    /// [`scan_listing`] of the configuration and the listing.
    pub fn make(&self, dir: &DirListing) -> (out: Vec<Result<TreeItem, ScanError>>)
        requires
            listing_depths_ok(*dir, self.root_len as nat),
        ensures
            output_view(out@) == scan_listing(*self, *dir),
        decreases *dir,
    {
        let mut stack: Vec<Result<TreeItem, ScanError>> = Vec::new();
        match &dir.entries {
            None => {
                proof {
                    assert(output_view(stack@) =~= scan_listing(*self, *dir));
                }
            },
            Some(entries) => {
                let n = entries.len();
                let mut i: usize = 0;
                proof {
                    assert(output_view(stack@) =~= scan_nodes(*self, entries@.take(0)));
                }
                while i < n
                    invariant
                        i <= n,
                        n == entries@.len(),
                        dir.entries == Some(*entries),
                        listing_depths_ok(*dir, self.root_len as nat),
                        output_view(stack@) == scan_nodes(*self, entries@.take(i as int)),
                    decreases n - i,
                {
                    proof {
                        assert(nodes_depths_ok(entries@, self.root_len as nat));
                        assert(node_depths_ok(entries@[i as int], self.root_len as nat));
                    }
                    let ghost prev = stack@;
                    let ghost node = entries@[i as int];
                    match &entries[i] {
                        EntryNode::Failed { error } => {
                            stack.push(Err(error.clone()));
                            proof {
                                assert(output_view(stack@) =~= output_view(prev).push(
                                    Err(node->Failed_error@),
                                ));
                                assert(output_view(stack@) =~= output_view(prev) + scan_node(
                                    *self,
                                    node,
                                ));
                            }
                        },
                        EntryNode::Entry { path, kind, listing } => {
                            let name = path_name(path);
                            if !self.show_hidden && is_hidden(&name) {
                                proof {
                                    assert(spec_skipped(*self, path@));
                                    assert(output_view(stack@) =~= output_view(prev) + scan_node(
                                        *self,
                                        node,
                                    ));
                                }
                            } else {
                                proof {
                                    assert(!spec_skipped(*self, path@));
                                }
                                match kind {
                                    FileType::File => {
                                        stack.push(Ok(TreeItem::from(path.clone())));
                                        proof {
                                            assert(output_view(stack@) =~= output_view(prev).push(
                                                Ok(node->Entry_path@),
                                            ));
                                            assert(output_view(stack@) =~= output_view(prev)
                                                + scan_node(*self, node));
                                        }
                                    },
                                    FileType::Directory => {
                                        let cur_depth = path_len(path) - self.root_len - 1;
                                        let should_pass = if self.max_depth < 0 {
                                            true
                                        } else {
                                            cur_depth < self.max_depth as usize
                                        };
                                        if should_pass {
                                            proof {
                                                assert(spec_descends(*self, path@));
                                                let vs: Vec<EntryNode> = dir.entries->0;
                                                assert(vs == *entries);
                                                assert(decreases_to!(*dir => dir.entries));
                                                assert(decreases_to!(dir.entries => vs));
                                                assert(decreases_to!(vs => vs[i as int]));
                                                assert(decreases_to!(
                                                    vs[i as int] => vs[i as int]->Entry_listing
                                                ));
                                                assert(vs[i as int]->Entry_listing == *listing);
                                                assert(decreases_to!(*dir => *listing));
                                            }
                                            let mut sub = self.make(listing);
                                            proof {
                                                assert(output_view(prev + sub@) =~= output_view(
                                                    prev,
                                                ) + output_view(sub@));
                                            }
                                            stack.append(&mut sub);
                                            proof {
                                                assert(output_view(stack@) =~= output_view(prev)
                                                    + scan_node(*self, node));
                                            }
                                        } else {
                                            proof {
                                                assert(!spec_descends(*self, path@));
                                                assert(output_view(stack@) =~= output_view(prev)
                                                    + scan_node(*self, node));
                                            }
                                        }
                                    },
                                    FileType::Symlink => {
                                        proof {
                                            assert(output_view(stack@) =~= output_view(prev)
                                                + scan_node(*self, node));
                                        }
                                    },
                                }
                            }
                        },
                    }
                    proof {
                        assert(entries@.take(i as int + 1).drop_last() =~= entries@.take(i as int));
                        assert(entries@.take(i as int + 1).last() == node);
                        assert(output_view(stack@) =~= scan_nodes(
                            *self,
                            entries@.take(i as int + 1),
                        ));
                    }
                    i += 1;
                }
                proof {
                    assert(entries@.take(n as int) =~= entries@);
                    assert(output_view(stack@) =~= scan_listing(*self, *dir));
                }
            },
        }
        stack
    }
}

} // verus!
