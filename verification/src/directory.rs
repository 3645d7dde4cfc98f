//! Directory handles and the policies and errors of path resolution.

use vstd::prelude::*;

use crate::data::{Value, ValueType};
use crate::file_system::{outcome_matches, FileSystem};
use crate::model::{dir_value, is_dir, is_file, node_parent, wf_nodes, with_dir_value};
use crate::node::Node;
use crate::path::parse_path;
use crate::resolve::{
    lemma_resolve_create_finds, lemma_resolve_never_other, lemma_resolve_no_create, resolve,
};
use crate::traits::{Child, Count, Handle, Located, Named, Root};

verus! {

/// A handle to a directory node of a [`crate::FileSystem`].
///
/// A handle addresses a slot of the tree's arena; it stays valid as long as
/// the tree exists and is cheap to copy.  Handles compare equal exactly
/// when they address the same node.
#[derive(Debug, Clone, Copy, PartialEq, Eq, Structural)]
pub struct Directory {
    pub(crate) id: usize,
}

impl Directory {
    /// The arena slot this handle addresses.
    pub closed spec fn id(&self) -> int {
        self.id as int
    }
}

pub(crate) broadcast proof fn lemma_directory_id(d: Directory)
    ensures
        #[trigger] d.id() == d.id as int,
{
}

/// The kind of node a resolution should produce at a missing endpoint.
#[derive(Debug, Clone, Copy, PartialEq, Eq, Structural)]
pub enum GetType {
    Directory,
    File,
}

impl Default for GetType {
    fn default() -> (r: Self)
        ensures
            r == GetType::Directory,
    {
        GetType::Directory
    }
}

/// The policy applied to a missing path segment.
#[derive(Debug, Clone, Copy, PartialEq, Eq, Structural)]
pub enum GetAction {
    /// Create the missing node with a default payload.
    CreateDefault,
    /// Fail with `IntermediateNotFound` or `EndpointNotFound`.
    ReturnError,
    /// Stop and report that nothing was found.
    ReturnNone,
}

impl Default for GetAction {
    fn default() -> (r: Self)
        ensures
            r == GetAction::ReturnNone,
    {
        GetAction::ReturnNone
    }
}

/// Whether a named segment is the endpoint of its path or has components
/// after it.
#[derive(Debug, Clone, Copy, PartialEq, Eq, Structural)]
pub enum GetPosition {
    /// The segment is the endpoint.
    Child,
    /// More components follow, so the segment names an intermediate
    /// directory.
    Parent,
}

impl GetPosition {
    /// Classifies a segment by the component that follows it, if any.
    pub fn from_next(component: Option<&crate::path::Component>) -> (r: Self)
        ensures
            r == (match component {
                Option::Some(_) => GetPosition::Parent,
                Option::None => GetPosition::Child,
            }),
    {
        match component {
            Option::Some(_) => GetPosition::Parent,
            Option::None => GetPosition::Child,
        }
    }
}

/// Why a path walk failed.
#[derive(Debug, Clone, Copy, PartialEq, Eq, Structural)]
pub enum GetError {
    /// The path indicated a directory, but a file was found.
    UnexpectedFile,
    /// The path indicated a parent directory, but the current directory has
    /// no parent.
    UnexpectedOrphan,
    /// The path contained a prefix, which is not supported.
    UnexpectedPrefix,
    /// The path was an absolute (root) path, but the directory is not a
    /// root directory.
    UnexpectedRoot,
    /// The endpoint does not exist.
    EndpointNotFound,
    /// An intermediate directory does not exist.
    IntermediateNotFound,
    /// An internal error occurred.
    Other,
}

/// Why a directory-typed lookup failed.
#[derive(Debug, Clone, Copy, PartialEq, Eq, Structural)]
pub enum GetDirError {
    /// A directory was expected, but a file was found.
    UnexpectedFile,
    /// The underlying walk failed.
    Get(GetError),
}

/// Why a file-typed lookup failed.
#[derive(Debug, Clone, Copy, PartialEq, Eq, Structural)]
pub enum GetFileError {
    /// A file was expected, but a directory was found.
    UnexpectedDirectory,
    /// The underlying walk failed.
    Get(GetError),
}

impl Directory {
    /// Resolves `path` from this directory under the full three-policy
    /// surface: `intermediate` governs missing non-final segments,
    /// `endpoint` the missing final segment, and `get_type` the kind a
    /// created endpoint gets.
    ///
    /// The tree afterwards, and the outcome, are exactly those of the
    /// specification walk [`resolve`] over the parsed components.
    pub fn get_node<D: ValueType, F: ValueType>(
        &self,
        fs: &mut FileSystem<D, F>,
        path: &str,
        intermediate: GetAction,
        endpoint: GetAction,
        get_type: GetType,
    ) -> (r: Result<Option<Node>, GetError>)
        requires
            old(fs).wf(),
            is_dir(old(fs)@, self.id()),
        ensures
            final(fs).wf(),
            final(fs)@ == resolve(
                old(fs)@,
                Some(self.id()),
                parse_path(path@),
                intermediate,
                endpoint,
                get_type,
            ).0,
            outcome_matches(
                r,
                resolve(
                    old(fs)@,
                    Some(self.id()),
                    parse_path(path@),
                    intermediate,
                    endpoint,
                    get_type,
                ).1,
                final(fs)@,
            ),
    {
        let comps = crate::path::parse(path);
        fs.resolve_from(self.id, &comps, intermediate, endpoint, get_type)
    }

    /// Resolves an already-parsed component sequence from this directory,
    /// under the full three-policy surface.  This is the entry point for
    /// callers that build component sequences themselves — the only way a
    /// [`crate::path::Component::Prefix`] can reach the walk, since no
    /// string parses to one.
    pub fn get_components<D: ValueType, F: ValueType>(
        &self,
        fs: &mut FileSystem<D, F>,
        components: &Vec<crate::path::Component>,
        intermediate: GetAction,
        endpoint: GetAction,
        get_type: GetType,
    ) -> (r: Result<Option<Node>, GetError>)
        requires
            old(fs).wf(),
            is_dir(old(fs)@, self.id()),
        ensures
            final(fs).wf(),
            final(fs)@ == resolve(
                old(fs)@,
                Some(self.id()),
                components.deep_view(),
                intermediate,
                endpoint,
                get_type,
            ).0,
            outcome_matches(
                r,
                resolve(
                    old(fs)@,
                    Some(self.id()),
                    components.deep_view(),
                    intermediate,
                    endpoint,
                    get_type,
                ).1,
                final(fs)@,
            ),
    {
        fs.resolve_from(self.id, components, intermediate, endpoint, get_type)
    }

    /// Read-only resolution: a missing segment, wherever it sits, makes
    /// the walk return `Ok(None)`.  The tree never changes.
    pub fn get<D: ValueType, F: ValueType>(
        &self,
        fs: &mut FileSystem<D, F>,
        path: &str,
        get_type: GetType,
    ) -> (r: Result<Option<Node>, GetError>)
        requires
            old(fs).wf(),
            is_dir(old(fs)@, self.id()),
        ensures
            final(fs).wf(),
            final(fs)@ == old(fs)@,
            outcome_matches(
                r,
                resolve(
                    old(fs)@,
                    Some(self.id()),
                    parse_path(path@),
                    GetAction::ReturnNone,
                    GetAction::ReturnNone,
                    get_type,
                ).1,
                final(fs)@,
            ),
    {
        proof {
            lemma_resolve_no_create(
                old(fs)@,
                Some(self.id()),
                parse_path(path@),
                GetAction::ReturnNone,
                GetAction::ReturnNone,
                get_type,
            );
        }
        self.get_node(fs, path, GetAction::ReturnNone, GetAction::ReturnNone, get_type)
    }

    /// Create-on-demand resolution: every missing segment is created, an
    /// intermediate one as a directory and the endpoint as `get_type`.
    /// Succeeds with a node or fails with the error that aborted the
    /// walk; it never reports "nothing found".
    pub fn get_default<D: ValueType, F: ValueType>(
        &self,
        fs: &mut FileSystem<D, F>,
        path: &str,
        get_type: GetType,
    ) -> (r: Result<Node, GetError>)
        requires
            old(fs).wf(),
            is_dir(old(fs)@, self.id()),
        ensures
            final(fs).wf(),
            final(fs)@ == resolve(
                old(fs)@,
                Some(self.id()),
                parse_path(path@),
                GetAction::CreateDefault,
                GetAction::CreateDefault,
                get_type,
            ).0,
            ({
                let r1 = resolve(
                    old(fs)@,
                    Some(self.id()),
                    parse_path(path@),
                    GetAction::CreateDefault,
                    GetAction::CreateDefault,
                    get_type,
                ).1;
                match (r, r1) {
                    (Ok(n), Ok(Some(j))) => n.id() == j && n.matches_tree(final(fs)@),
                    (Err(e), Err(e1)) => e == e1,
                    _ => false,
                }
            }),
            r != Result::<Node, GetError>::Err(GetError::Other),
    {
        let r = self.get_node(
            fs,
            path,
            GetAction::CreateDefault,
            GetAction::CreateDefault,
            get_type,
        );
        proof {
            lemma_resolve_create_finds(
                old(fs)@,
                Some(self.id()),
                parse_path(path@),
                get_type,
            );
            lemma_resolve_never_other(
                old(fs)@,
                Some(self.id()),
                parse_path(path@),
                GetAction::CreateDefault,
                GetAction::CreateDefault,
                get_type,
            );
        }
        match r {
            Ok(Some(node)) => Ok(node),
            Ok(None) => Err(GetError::Other),
            Err(err) => Err(err),
        }
    }

    /// Read-only resolution that must end at a directory: a file at the
    /// endpoint is the `UnexpectedFile` error, a missing segment is
    /// `Ok(None)`.
    pub fn get_dir<D: ValueType, F: ValueType>(
        &self,
        fs: &mut FileSystem<D, F>,
        path: &str,
    ) -> (r: Result<Option<Directory>, GetDirError>)
        requires
            old(fs).wf(),
            is_dir(old(fs)@, self.id()),
        ensures
            final(fs).wf(),
            final(fs)@ == old(fs)@,
            ({
                let r1 = resolve(
                    old(fs)@,
                    Some(self.id()),
                    parse_path(path@),
                    GetAction::ReturnNone,
                    GetAction::ReturnNone,
                    GetType::Directory,
                ).1;
                match (r, r1) {
                    (Ok(Some(d)), Ok(Some(j))) => d.id() == j && is_dir(final(fs)@, j),
                    (Err(GetDirError::UnexpectedFile), Ok(Some(j))) => is_file(final(fs)@, j),
                    (Ok(None), Ok(None)) => true,
                    (Err(GetDirError::Get(e)), Err(e1)) => e == e1,
                    _ => false,
                }
            }),
    {
        match self.get(fs, path, GetType::Directory) {
            Ok(Some(Node::Directory(dir))) => Ok(Some(dir)),
            Ok(Some(Node::File(_))) => Err(GetDirError::UnexpectedFile),
            Ok(None) => Ok(None),
            Err(err) => Err(GetDirError::Get(err)),
        }
    }

    /// Create-on-demand resolution that must end at a directory.
    pub fn get_dir_default<D: ValueType, F: ValueType>(
        &self,
        fs: &mut FileSystem<D, F>,
        path: &str,
    ) -> (r: Result<Directory, GetDirError>)
        requires
            old(fs).wf(),
            is_dir(old(fs)@, self.id()),
        ensures
            final(fs).wf(),
            final(fs)@ == resolve(
                old(fs)@,
                Some(self.id()),
                parse_path(path@),
                GetAction::CreateDefault,
                GetAction::CreateDefault,
                GetType::Directory,
            ).0,
            ({
                let r1 = resolve(
                    old(fs)@,
                    Some(self.id()),
                    parse_path(path@),
                    GetAction::CreateDefault,
                    GetAction::CreateDefault,
                    GetType::Directory,
                ).1;
                match (r, r1) {
                    (Ok(d), Ok(Some(j))) => d.id() == j && is_dir(final(fs)@, j),
                    (Err(GetDirError::UnexpectedFile), Ok(Some(j))) => is_file(final(fs)@, j),
                    (Err(GetDirError::Get(e)), Err(e1)) => e == e1,
                    _ => false,
                }
            }),
            r != Result::<Directory, GetDirError>::Err(GetDirError::Get(GetError::Other)),
    {
        match self.get_default(fs, path, GetType::Directory) {
            Ok(Node::Directory(dir)) => Ok(dir),
            Ok(Node::File(_)) => Err(GetDirError::UnexpectedFile),
            Err(err) => Err(GetDirError::Get(err)),
        }
    }

    /// Read-only resolution that must end at a file: a directory at the
    /// endpoint is the `UnexpectedDirectory` error, a missing segment is
    /// `Ok(None)`.
    pub fn get_file<D: ValueType, F: ValueType>(
        &self,
        fs: &mut FileSystem<D, F>,
        path: &str,
    ) -> (r: Result<Option<crate::file::File>, GetFileError>)
        requires
            old(fs).wf(),
            is_dir(old(fs)@, self.id()),
        ensures
            final(fs).wf(),
            final(fs)@ == old(fs)@,
            ({
                let r1 = resolve(
                    old(fs)@,
                    Some(self.id()),
                    parse_path(path@),
                    GetAction::ReturnNone,
                    GetAction::ReturnNone,
                    GetType::File,
                ).1;
                match (r, r1) {
                    (Ok(Some(f)), Ok(Some(j))) => f.id() == j && is_file(final(fs)@, j),
                    (Err(GetFileError::UnexpectedDirectory), Ok(Some(j))) => is_dir(
                        final(fs)@,
                        j,
                    ),
                    (Ok(None), Ok(None)) => true,
                    (Err(GetFileError::Get(e)), Err(e1)) => e == e1,
                    _ => false,
                }
            }),
    {
        match self.get(fs, path, GetType::File) {
            Ok(Some(Node::Directory(_))) => Err(GetFileError::UnexpectedDirectory),
            Ok(Some(Node::File(file))) => Ok(Some(file)),
            Ok(None) => Ok(None),
            Err(err) => Err(GetFileError::Get(err)),
        }
    }

    /// Create-on-demand resolution that must end at a file.
    pub fn get_file_default<D: ValueType, F: ValueType>(
        &self,
        fs: &mut FileSystem<D, F>,
        path: &str,
    ) -> (r: Result<crate::file::File, GetFileError>)
        requires
            old(fs).wf(),
            is_dir(old(fs)@, self.id()),
        ensures
            final(fs).wf(),
            final(fs)@ == resolve(
                old(fs)@,
                Some(self.id()),
                parse_path(path@),
                GetAction::CreateDefault,
                GetAction::CreateDefault,
                GetType::File,
            ).0,
            ({
                let r1 = resolve(
                    old(fs)@,
                    Some(self.id()),
                    parse_path(path@),
                    GetAction::CreateDefault,
                    GetAction::CreateDefault,
                    GetType::File,
                ).1;
                match (r, r1) {
                    (Ok(f), Ok(Some(j))) => f.id() == j && is_file(final(fs)@, j),
                    (Err(GetFileError::UnexpectedDirectory), Ok(Some(j))) => is_dir(
                        final(fs)@,
                        j,
                    ),
                    (Err(GetFileError::Get(e)), Err(e1)) => e == e1,
                    _ => false,
                }
            }),
            r != Result::<crate::file::File, GetFileError>::Err(
                GetFileError::Get(GetError::Other),
            ),
    {
        match self.get_default(fs, path, GetType::File) {
            Ok(Node::Directory(_)) => Err(GetFileError::UnexpectedDirectory),
            Ok(Node::File(file)) => Ok(file),
            Err(err) => Err(GetFileError::Get(err)),
        }
    }

    /// The directory's payload cell.
    pub fn data<'a, D, F>(&self, fs: &'a FileSystem<D, F>) -> (r: &'a Value<D>)
        requires
            fs.wf(),
            is_dir(fs@, self.id()),
        ensures
            r@ == dir_value(fs@, self.id()),
    {
        fs.dir_data(self.id)
    }

    /// Reads the directory's payload.
    pub fn read<'a, D, F>(&self, fs: &'a FileSystem<D, F>) -> (r: &'a D)
        requires
            fs.wf(),
            is_dir(fs@, self.id()),
        ensures
            *r == dir_value(fs@, self.id()),
    {
        self.data(fs).read()
    }

    /// Replaces the directory's payload, returning the previous payload.
    /// Every other node, and the tree's shape, stay exactly as they were:
    /// writes to distinct payload cells never disturb one another.
    pub fn write<D, F>(&self, fs: &mut FileSystem<D, F>, value: D) -> (r: D)
        requires
            old(fs).wf(),
            is_dir(old(fs)@, self.id()),
        ensures
            final(fs).wf(),
            final(fs)@ == old(fs)@.update(
                self.id(),
                with_dir_value(old(fs)@[self.id()], value),
            ),
            r == dir_value(old(fs)@, self.id()),
    {
        fs.set_dir_data(self.id, value)
    }
}

impl<D, F> Handle<D, F> for Directory {
    open spec fn valid(&self, fs: &FileSystem<D, F>) -> bool {
        is_dir(fs@, self.id())
    }

    open spec fn slot(&self) -> int {
        self.id()
    }
}

impl<D, F> Named<D, F> for Directory {
    fn name(&self, fs: &FileSystem<D, F>) -> (r: Option<String>) {
        match fs.parent_edge(self.id) {
            Some(edge) => Some(edge.name()),
            None => None,
        }
    }
}

impl<D, F> Child<D, F> for Directory {
    fn parent(&self, fs: &FileSystem<D, F>) -> (r: Option<Directory>) {
        proof {
            crate::file_system::lemma_wf_implies_wf_nodes(fs);
            assert(wf_nodes(fs@));
            assert(match node_parent(fs@, self.id()) {
                Some(edge) => is_dir(fs@, edge.1),
                None => true,
            });
        }
        match fs.parent_edge(self.id) {
            Some(edge) => Some(edge.directory()),
            None => None,
        }
    }
}

impl<D, F> Root<D, F> for Directory {
    fn is_root(&self, fs: &FileSystem<D, F>) -> (r: bool) {
        fs.parent_edge(self.id).is_none()
    }
}

impl<D, F> Located<D, F> for Directory {
    fn path(&self, fs: &FileSystem<D, F>) -> (r: String) {
        fs.path_of(self.id)
    }
}

impl<D, F> Count<D, F> for Directory {
    fn count(&self, fs: &FileSystem<D, F>) -> (r: usize) {
        fs.count_children(self.id)
    }

    fn count_dir(&self, fs: &FileSystem<D, F>) -> (r: usize) {
        fs.count_children_of_kind(self.id, GetType::Directory)
    }

    fn count_file(&self, fs: &FileSystem<D, F>) -> (r: usize) {
        fs.count_children_of_kind(self.id, GetType::File)
    }
}

} // verus!
