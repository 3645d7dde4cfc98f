//! Nodes: the tagged union of a directory handle and a file handle.

use vstd::prelude::*;

use crate::directory::Directory;
use crate::file::File;
use crate::file_system::FileSystem;
use crate::model::{is_dir, is_file, NodeView};
use crate::traits::{Child, Handle, Located, Named, Root};

verus! {

/// A handle to any node of a [`crate::FileSystem`].
#[derive(Debug, Clone, Copy, PartialEq, Eq, Structural)]
pub enum Node {
    Directory(Directory),
    File(File),
}

impl Node {
    /// The arena slot this handle addresses.
    pub open spec fn id(&self) -> int {
        match self {
            Node::Directory(dir) => dir.id(),
            Node::File(file) => file.id(),
        }
    }

    /// Whether the handle's variant agrees with the node it addresses in
    /// the tree `nodes`.
    pub open spec fn matches_tree<D, F>(&self, nodes: Seq<NodeView<D, F>>) -> bool {
        match self {
            Node::Directory(dir) => is_dir(nodes, dir.id()),
            Node::File(file) => is_file(nodes, file.id()),
        }
    }
}

impl<D, F> Handle<D, F> for Node {
    open spec fn valid(&self, fs: &FileSystem<D, F>) -> bool {
        self.matches_tree(fs@)
    }

    open spec fn slot(&self) -> int {
        self.id()
    }
}

impl<D, F> Named<D, F> for Node {
    fn name(&self, fs: &FileSystem<D, F>) -> (r: Option<String>) {
        match self {
            Node::Directory(dir) => dir.name(fs),
            Node::File(file) => file.name(fs),
        }
    }
}

impl<D, F> Child<D, F> for Node {
    fn parent(&self, fs: &FileSystem<D, F>) -> (r: Option<Directory>) {
        match self {
            Node::Directory(dir) => dir.parent(fs),
            Node::File(file) => file.parent(fs),
        }
    }
}

impl<D, F> Root<D, F> for Node {
    fn is_root(&self, fs: &FileSystem<D, F>) -> (r: bool) {
        match self {
            Node::Directory(dir) => dir.is_root(fs),
            Node::File(file) => file.is_root(fs),
        }
    }
}

impl<D, F> Located<D, F> for Node {
    fn path(&self, fs: &FileSystem<D, F>) -> (r: String) {
        match self {
            Node::Directory(dir) => dir.path(fs),
            Node::File(file) => file.path(fs),
        }
    }
}

} // verus!
