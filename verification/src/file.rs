//! File handles.

use vstd::prelude::*;

use crate::data::Value;
use crate::directory::Directory;
use crate::file_system::FileSystem;
use crate::model::{file_value, is_dir, is_file, node_parent, with_file_value};
use crate::traits::{Child, Handle, Located, Named, Root};

verus! {

/// A handle to a file node of a [`crate::FileSystem`].
///
/// Like [`crate::Directory`], it addresses a slot of the tree's arena and
/// is cheap to copy.  A file always has a parent directory and never has
/// children.
#[derive(Debug, Clone, Copy, PartialEq, Eq, Structural)]
pub struct File {
    pub(crate) id: usize,
}

impl File {
    /// The arena slot this handle addresses.
    pub closed spec fn id(&self) -> int {
        self.id as int
    }
}

pub(crate) broadcast proof fn lemma_file_id(f: File)
    ensures
        #[trigger] f.id() == f.id as int,
{
}

impl File {
    /// The file's payload cell.
    pub fn data<'a, D, F>(&self, fs: &'a FileSystem<D, F>) -> (r: &'a Value<F>)
        requires
            fs.wf(),
            is_file(fs@, self.id()),
        ensures
            r@ == file_value(fs@, self.id()),
    {
        fs.file_data(self.id)
    }

    /// Reads the file's payload.
    pub fn read<'a, D, F>(&self, fs: &'a FileSystem<D, F>) -> (r: &'a F)
        requires
            fs.wf(),
            is_file(fs@, self.id()),
        ensures
            *r == file_value(fs@, self.id()),
    {
        self.data(fs).read()
    }

    /// Replaces the file's payload, returning the previous payload.
    /// Every other node, and the tree's shape, stay exactly as they were:
    /// writes to distinct payload cells never disturb one another.
    pub fn write<D, F>(&self, fs: &mut FileSystem<D, F>, value: F) -> (r: F)
        requires
            old(fs).wf(),
            is_file(old(fs)@, self.id()),
        ensures
            final(fs).wf(),
            final(fs)@ == old(fs)@.update(
                self.id(),
                with_file_value(old(fs)@[self.id()], value),
            ),
            r == file_value(old(fs)@, self.id()),
    {
        fs.set_file_data(self.id, value)
    }
}

impl<D, F> Handle<D, F> for File {
    open spec fn valid(&self, fs: &FileSystem<D, F>) -> bool {
        is_file(fs@, self.id())
    }

    open spec fn slot(&self) -> int {
        self.id()
    }
}

impl<D, F> Named<D, F> for File {
    fn name(&self, fs: &FileSystem<D, F>) -> (r: Option<String>) {
        match fs.parent_edge(self.id) {
            Some(edge) => Some(edge.name()),
            None => None,
        }
    }
}

impl<D, F> Child<D, F> for File {
    fn parent(&self, fs: &FileSystem<D, F>) -> (r: Option<Directory>) {
        proof {
            crate::file_system::lemma_wf_implies_wf_nodes(fs);
            assert(match node_parent(fs@, self.id()) {
                Some(edge) => is_dir(fs@, edge.1),
                None => true,
            });
        }
        match fs.parent_edge(self.id) {
            Some(edge) => Some(edge.directory()),
            None => None,
        }
    }
}

impl<D, F> Root<D, F> for File {
    fn is_root(&self, fs: &FileSystem<D, F>) -> (r: bool) {
        fs.parent_edge(self.id).is_none()
    }
}

impl<D, F> Located<D, F> for File {
    fn path(&self, fs: &FileSystem<D, F>) -> (r: String) {
        fs.path_of(self.id)
    }
}

} // verus!
