use treewalk::item::{FileType, ScanError, TreeItem};
use treewalk::path::TreePath;
use treewalk::snapshot::{DirListing, EntryNode};
use treewalk::tree::TreeMaker;

fn p(parts: &[&str]) -> TreePath {
    TreePath { parts: parts.iter().map(|s| s.to_string()).collect() }
}

fn file(parts: &[&str]) -> EntryNode {
    EntryNode::Entry { path: p(parts), kind: FileType::File, listing: DirListing { entries: None } }
}

fn link(parts: &[&str]) -> EntryNode {
    EntryNode::Entry {
        path: p(parts),
        kind: FileType::Symlink,
        listing: DirListing { entries: None },
    }
}

fn dir(parts: &[&str], children: Vec<EntryNode>) -> EntryNode {
    EntryNode::Entry {
        path: p(parts),
        kind: FileType::Directory,
        listing: DirListing { entries: Some(children) },
    }
}

fn unreadable_dir(parts: &[&str]) -> EntryNode {
    EntryNode::Entry {
        path: p(parts),
        kind: FileType::Directory,
        listing: DirListing { entries: None },
    }
}

fn fail(msg: &str) -> EntryNode {
    EntryNode::Failed { error: ScanError { message: msg.to_string() } }
}

fn ok_paths(out: &[Result<TreeItem, ScanError>]) -> Vec<Vec<String>> {
    out.iter()
        .filter_map(|r| r.as_ref().ok().map(|item| item.path.parts.clone()))
        .collect()
}

fn parts(tail: &[&str]) -> Vec<String> {
    tail.iter().map(|s| s.to_string()).collect()
}

/// Root `/r` holding file `a.txt`, directory `.hidden` with file `x.txt`,
/// and directory `sub` with file `b.txt`, in that listing order.
fn sample_root() -> DirListing {
    DirListing {
        entries: Some(vec![
            file(&["/", "r", "a.txt"]),
            dir(
                &["/", "r", ".hidden"],
                vec![file(&["/", "r", ".hidden", "x.txt"])],
            ),
            dir(&["/", "r", "sub"], vec![file(&["/", "r", "sub", "b.txt"])]),
        ]),
    }
}

#[test]
fn unlimited_depth_without_hidden() {
    let maker = TreeMaker::new(-1, &p(&["/", "r"]), false);
    let out = maker.make(&sample_root());
    assert_eq!(out.len(), 2);
    assert_eq!(
        ok_paths(&out),
        vec![parts(&["/", "r", "a.txt"]), parts(&["/", "r", "sub", "b.txt"])]
    );
}

#[test]
fn unlimited_depth_with_hidden() {
    let maker = TreeMaker::new(-1, &p(&["/", "r"]), true);
    let out = maker.make(&sample_root());
    assert_eq!(out.len(), 3);
    assert_eq!(
        ok_paths(&out),
        vec![
            parts(&["/", "r", "a.txt"]),
            parts(&["/", "r", ".hidden", "x.txt"]),
            parts(&["/", "r", "sub", "b.txt"]),
        ]
    );
}

#[test]
fn depth_limit_one_descends_one_level() {
    // A directory at depth 0 is still below the strict limit 1, so the
    // scan lists its children; those children are at depth 1 already.
    let maker = TreeMaker::new(1, &p(&["/", "r"]), true);
    let out = maker.make(&sample_root());
    assert_eq!(
        ok_paths(&out),
        vec![
            parts(&["/", "r", "a.txt"]),
            parts(&["/", "r", ".hidden", "x.txt"]),
            parts(&["/", "r", "sub", "b.txt"]),
        ]
    );
}

#[test]
fn depth_limit_zero_lists_direct_children_only() {
    let maker = TreeMaker::new(0, &p(&["/", "r"]), true);
    let out = maker.make(&sample_root());
    assert_eq!(out.len(), 1);
    assert_eq!(ok_paths(&out), vec![parts(&["/", "r", "a.txt"])]);
}

#[test]
fn depth_limit_two_on_deeper_tree() {
    // root /r: f0, and a at depth 0 -> b at depth 1 -> c at depth 2.
    // b is recursed into (depth 1 < 2); c is not (depth 2).
    let snapshot = DirListing {
        entries: Some(vec![
            file(&["/", "r", "f0"]),
            dir(
                &["/", "r", "a"],
                vec![
                    file(&["/", "r", "a", "f1"]),
                    dir(
                        &["/", "r", "a", "b"],
                        vec![
                            file(&["/", "r", "a", "b", "f2"]),
                            dir(
                                &["/", "r", "a", "b", "c"],
                                vec![file(&["/", "r", "a", "b", "c", "f3"])],
                            ),
                        ],
                    ),
                ],
            ),
        ]),
    };
    let maker = TreeMaker::new(2, &p(&["/", "r"]), true);
    let out = maker.make(&snapshot);
    assert_eq!(
        ok_paths(&out),
        vec![
            parts(&["/", "r", "f0"]),
            parts(&["/", "r", "a", "f1"]),
            parts(&["/", "r", "a", "b", "f2"]),
        ]
    );
}

#[test]
fn unlimited_depth_reaches_deep_file() {
    let snapshot = DirListing {
        entries: Some(vec![dir(
            &["/", "r", "d1"],
            vec![dir(
                &["/", "r", "d1", "d2"],
                vec![dir(
                    &["/", "r", "d1", "d2", "d3"],
                    vec![file(&["/", "r", "d1", "d2", "d3", "deep.txt"])],
                )],
            )],
        )]),
    };
    let maker = TreeMaker::new(-1, &p(&["/", "r"]), false);
    let out = maker.make(&snapshot);
    assert_eq!(
        ok_paths(&out),
        vec![parts(&["/", "r", "d1", "d2", "d3", "deep.txt"])]
    );
}

#[test]
fn nonexistent_directory_yields_empty_output() {
    let maker = TreeMaker::new(-1, &p(&["/", "nonexistent"]), false);
    let out = maker.make(&DirListing { entries: None });
    assert!(out.is_empty());
}

#[test]
fn per_entry_error_keeps_siblings() {
    let snapshot = DirListing {
        entries: Some(vec![fail("permission denied"), file(&["/", "r", "b.txt"])]),
    };
    let maker = TreeMaker::new(-1, &p(&["/", "r"]), false);
    let out = maker.make(&snapshot);
    assert_eq!(out.len(), 2);
    assert_eq!(out[0].as_ref().unwrap_err().message, "permission denied");
    assert_eq!(out[1].as_ref().unwrap().path.parts, parts(&["/", "r", "b.txt"]));
}

#[test]
fn unreadable_subdirectory_is_silent() {
    let snapshot = DirListing {
        entries: Some(vec![
            unreadable_dir(&["/", "r", "locked"]),
            file(&["/", "r", "a.txt"]),
        ]),
    };
    let maker = TreeMaker::new(-1, &p(&["/", "r"]), false);
    let out = maker.make(&snapshot);
    assert_eq!(out.len(), 1);
    assert_eq!(ok_paths(&out), vec![parts(&["/", "r", "a.txt"])]);
}

#[test]
fn symlink_is_neither_emitted_nor_recursed() {
    // Even a symlink that carries a listing (say, one pointing at a
    // directory whose contents were read) contributes nothing.
    let link_with_contents = EntryNode::Entry {
        path: p(&["/", "r", "alias"]),
        kind: FileType::Symlink,
        listing: DirListing { entries: Some(vec![file(&["/", "r", "alias", "t.txt"])]) },
    };
    let snapshot = DirListing {
        entries: Some(vec![
            link(&["/", "r", "dangling"]),
            link_with_contents,
            file(&["/", "r", "a.txt"]),
        ]),
    };
    let maker = TreeMaker::new(-1, &p(&["/", "r"]), true);
    let out = maker.make(&snapshot);
    assert_eq!(out.len(), 1);
    assert_eq!(ok_paths(&out), vec![parts(&["/", "r", "a.txt"])]);
}

#[test]
fn hidden_file_and_hidden_subtree_are_pruned() {
    let snapshot = DirListing {
        entries: Some(vec![
            file(&["/", "r", ".secret"]),
            dir(
                &["/", "r", ".config"],
                vec![file(&["/", "r", ".config", "visible-inside.txt"])],
            ),
        ]),
    };
    let maker = TreeMaker::new(-1, &p(&["/", "r"]), false);
    let out = maker.make(&snapshot);
    assert!(out.is_empty());
}

#[test]
fn hidden_entries_kept_when_shown() {
    let snapshot = DirListing {
        entries: Some(vec![file(&["/", "r", ".secret"])]),
    };
    let maker = TreeMaker::new(-1, &p(&["/", "r"]), true);
    let out = maker.make(&snapshot);
    assert_eq!(ok_paths(&out), vec![parts(&["/", "r", ".secret"])]);
}

#[test]
fn repeated_scan_yields_identical_output() {
    let snapshot = sample_root();
    let maker = TreeMaker::new(-1, &p(&["/", "r"]), false);
    let first = maker.make(&snapshot);
    let second = maker.make(&snapshot);
    assert_eq!(first, second);
}
