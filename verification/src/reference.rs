//! The back-edge a child keeps to its containing directory.

use vstd::prelude::*;

use crate::directory::Directory;

verus! {

/// A child's non-owning back-edge: the name under which the parent knows
/// the child, paired with the parent directory's handle.
///
/// Its view is the pair of the name's characters and the parent's slot —
/// exactly the parent edge of the tree model.
#[derive(Debug)]
pub enum ParentRef {
    Directory(String, Directory),
}

impl View for ParentRef {
    type V = (Seq<char>, int);

    open spec fn view(&self) -> (Seq<char>, int) {
        match self {
            ParentRef::Directory(name, dir) => (name@, dir.id()),
        }
    }
}

impl ParentRef {
    /// The name under which the parent knows the child.
    pub fn name(&self) -> (r: String)
        ensures
            r@ == self@.0,
    {
        match self {
            ParentRef::Directory(name, _) => name.clone(),
        }
    }

    /// The parent directory's handle.
    pub fn directory(&self) -> (r: Directory)
        ensures
            r.id() == self@.1,
    {
        match self {
            ParentRef::Directory(_, dir) => *dir,
        }
    }
}

} // verus!
