//! The shared node operations: naming, parenthood, root test, counting,
//! and path reconstruction.
//!
//! Every trait takes the tree as an explicit argument: handles are bare
//! slots, and only the [`FileSystem`] knows the nodes they address.

use vstd::prelude::*;

use crate::directory::{Directory, GetType};
use crate::file_system::FileSystem;
use crate::model::{children_of, children_of_kind, is_dir, node_name, node_parent, node_path};

verus! {

/// A handle into a tree: something that addresses one node slot.
pub trait Handle<D, F> {
    /// Whether the handle addresses a node of `fs` and its variant agrees
    /// with that node.
    spec fn valid(&self, fs: &FileSystem<D, F>) -> bool;

    /// The slot the handle addresses.
    spec fn slot(&self) -> int;
}

/// Nodes that know the name their parent gave them.
pub trait Named<D, F>: Handle<D, F> {
    /// The name by which the node's parent knows it, or `None` for the
    /// root.
    fn name(&self, fs: &FileSystem<D, F>) -> (r: Option<String>)
        requires
            fs.wf(),
            self.valid(fs),
        ensures
            (match (r, node_name(fs@, self.slot())) {
                (Some(s), Some(t)) => s@ == t,
                (None, None) => true,
                _ => false,
            }),
    ;
}

/// Nodes that can look up their containing directory.
pub trait Child<D, F>: Handle<D, F> {
    /// The containing directory, or `None` for the root.
    fn parent(&self, fs: &FileSystem<D, F>) -> (r: Option<Directory>)
        requires
            fs.wf(),
            self.valid(fs),
        ensures
            (match (r, node_parent(fs@, self.slot())) {
                (Some(d), Some(edge)) => d.id() == edge.1 && is_dir(fs@, edge.1),
                (None, None) => true,
                _ => false,
            }),
    ;
}

/// Nodes that can test whether they are the tree's root.
pub trait Root<D, F>: Handle<D, F> {
    /// True exactly when the node has no parent edge; only the root
    /// directory qualifies.
    fn is_root(&self, fs: &FileSystem<D, F>) -> (r: bool)
        requires
            fs.wf(),
            self.valid(fs),
        ensures
            r == (node_parent(fs@, self.slot()) is None),
    ;
}

/// Nodes that can reconstruct their absolute path.
pub trait Located<D, F>: Handle<D, F> {
    /// The `/`-separated path from the root down to the node.
    fn path(&self, fs: &FileSystem<D, F>) -> (r: String)
        requires
            fs.wf(),
            self.valid(fs),
        ensures
            r@ == node_path(fs@, self.slot()),
    ;
}

/// Directories that can count their children.
pub trait Count<D, F>: Handle<D, F> {
    /// The number of children.
    fn count(&self, fs: &FileSystem<D, F>) -> (r: usize)
        requires
            fs.wf(),
            self.valid(fs),
        ensures
            r as nat == children_of(fs@, self.slot()).dom().len(),
    ;

    /// The number of children that are directories.
    fn count_dir(&self, fs: &FileSystem<D, F>) -> (r: usize)
        requires
            fs.wf(),
            self.valid(fs),
        ensures
            r as nat == children_of_kind(fs@, self.slot(), GetType::Directory).len(),
    ;

    /// The number of children that are files.
    fn count_file(&self, fs: &FileSystem<D, F>) -> (r: usize)
        requires
            fs.wf(),
            self.valid(fs),
        ensures
            r as nat == children_of_kind(fs@, self.slot(), GetType::File).len(),
    ;
}

} // verus!
