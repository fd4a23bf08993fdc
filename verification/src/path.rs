use vstd::prelude::*;
use vstd::string::StrSliceExecFns;

verus! {

/// A filesystem path, carried as its sequence of components.
///
/// The scan only ever reads two things of a path: how many components it
/// has (for the depth arithmetic) and its final component (for the hidden
/// test), so a path is modelled as the list of its components — for
/// `/r/sub` the components `/`, `r`, `sub`, in that order.
#[derive(Debug, PartialEq, Eq)]
pub struct TreePath {
    pub parts: Vec<String>,
}

impl View for TreePath {
    type V = Seq<Seq<char>>;

    open spec fn view(&self) -> Seq<Seq<char>> {
        Seq::new(self.parts@.len(), |i: int| self.parts@[i]@)
    }
}

impl Clone for TreePath {
    fn clone(&self) -> (r: Self)
        ensures
            r@ == self@,
    {
        let mut parts: Vec<String> = Vec::new();
        let n = self.parts.len();
        let mut i: usize = 0;
        while i < n
            invariant
                i <= n,
                n == self.parts@.len(),
                parts@.len() == i,
                forall|j: int| 0 <= j < i ==> parts@[j] == self.parts@[j],
            decreases n - i,
        {
            parts.push(self.parts[i].clone());
            i += 1;
        }
        let r = TreePath { parts };
        proof {
            assert(r@ =~= self@);
        }
        r
    }
}

/// The number of components of `p`; a depth-arithmetic primitive, not a
/// byte length.
pub fn path_len(p: &TreePath) -> (n: usize)
    ensures
        n == p@.len(),
{
    p.parts.len()
}

/// The final component of a path, or the empty string for a path with no
/// components (the empty string is never hidden).
pub open spec fn spec_path_name(p: Seq<Seq<char>>) -> Seq<char> {
    if p.len() == 0 {
        Seq::empty()
    } else {
        p.last()
    }
}

/// The final component of `p` as a string, used for the hidden test.
pub fn path_name(p: &TreePath) -> (name: String)
    ensures
        name@ == spec_path_name(p@),
{
    let n = p.parts.len();
    if n == 0 {
        String::new()
    } else {
        p.parts[n - 1].clone()
    }
}

/// A name is hidden when it starts with a dot.
pub open spec fn spec_hidden(name: Seq<char>) -> bool {
    name.len() > 0 && name[0] == '.'
}

/// Whether `name` starts with a dot.
pub fn is_hidden(name: &String) -> (b: bool)
    ensures
        b == spec_hidden(name@),
{
    let s = name.as_str();
    if s.unicode_len() == 0 {
        false
    } else {
        s.get_char(0) == '.'
    }
}

} // verus!
