//! An in-memory, path-addressable tree store.
//!
//! Every node of the tree is either a directory or a file, and carries an
//! application-defined payload instead of real file bytes.  Directories own
//! their children; a child holds only a non-owning back-edge (its name and
//! its parent) so that the parent/child cycle stays acyclic in ownership.
//! Nodes live in an arena held by [`FileSystem`]; the handle types
//! ([`Directory`], [`File`], [`Node`]) are cheap copies that address a slot
//! of that arena.
//!
//! Path resolution walks a sequence of [`path::Component`]s from a starting
//! directory, applying a configurable policy ([`directory::GetAction`]) to
//! missing intermediate and missing endpoint segments.

pub mod data;
pub mod directory;
pub mod file;
pub mod file_system;
pub mod model;
pub mod node;
pub mod path;
pub mod reference;
pub mod resolve;
pub mod traits;

pub use data::{Value, ValueType};
pub use directory::Directory;
pub use file::File;
pub use file_system::FileSystem;
pub use node::Node;
