use vstd::prelude::*;
use crate::path::TreePath;

verus! {

/// The kind of one filesystem entry, decided once per entry and consumed
/// immediately by the traversal.
#[derive(Debug, Clone, Copy, PartialEq, Eq, Structural)]
pub enum FileType {
    File,
    Directory,
    Symlink,
}

/// What classification decides from an entry's metadata: the symbolic-link
/// test comes before the directory test, so a link is never taken for the
/// thing it points to; anything that is neither is a regular file.
pub open spec fn spec_classify(is_symlink: bool, is_dir: bool) -> FileType {
    if is_symlink {
        FileType::Symlink
    } else if is_dir {
        FileType::Directory
    } else {
        FileType::File
    }
}

/// Classifies one entry from its metadata flags.
pub fn classify(is_symlink: bool, is_dir: bool) -> (t: FileType)
    ensures
        t == spec_classify(is_symlink, is_dir),
{
    if is_symlink {
        FileType::Symlink
    } else if is_dir {
        FileType::Directory
    } else {
        FileType::File
    }
}

/// One successfully visited filesystem entry, carrying its path.
/// Constructed only for an entry that was classified as a file and has
/// passed the hidden filter; immutable after construction.
#[derive(Debug, PartialEq, Eq)]
pub struct TreeItem {
    pub path: TreePath,
}

impl View for TreeItem {
    type V = Seq<Seq<char>>;

    open spec fn view(&self) -> Seq<Seq<char>> {
        self.path@
    }
}

impl TreeItem {
    /// Wraps a visited path as an item.
    pub fn from(path: TreePath) -> (item: TreeItem)
        ensures
            item.path == path,
    {
        TreeItem { path }
    }
}

/// Why one directory entry could not be read or classified; the scan's
/// sole error-reporting channel.
#[derive(Debug, PartialEq, Eq)]
pub struct ScanError {
    pub message: String,
}

impl View for ScanError {
    type V = Seq<char>;

    open spec fn view(&self) -> Seq<char> {
        self.message@
    }
}

impl Clone for ScanError {
    fn clone(&self) -> (r: Self)
        ensures
            r@ == self@,
    {
        ScanError { message: self.message.clone() }
    }
}

/// The mathematical value of one output entry: the visited path, or the
/// error text.
pub open spec fn entry_view(e: Result<TreeItem, ScanError>) -> Result<Seq<Seq<char>>, Seq<char>> {
    match e {
        Ok(item) => Ok(item@),
        Err(err) => Err(err@),
    }
}

/// The mathematical value of a whole output sequence.
pub open spec fn output_view(s: Seq<Result<TreeItem, ScanError>>) -> Seq<
    Result<Seq<Seq<char>>, Seq<char>>,
> {
    Seq::new(s.len(), |i: int| entry_view(s[i]))
}

} // verus!
