//! The mathematical model of a tree: a sequence of node views.
//!
//! A [`crate::FileSystem`] views as a `Seq<NodeView<D, F>>`; the node a
//! handle addresses is the element at the handle's slot.  A directory's
//! children are modelled as a map from name to slot, so that the set of
//! named children carries no order; a non-root node's parent edge is the
//! pair of its name and its parent's slot.

use vstd::prelude::*;

use crate::directory::GetType;

verus! {

/// The model of one node.
#[verifier::ext_equal]
pub enum NodeView<D, F> {
    Directory { children: Map<Seq<char>, int>, parent: Option<(Seq<char>, int)>, value: D },
    File { parent: (Seq<char>, int), value: F },
}

/// The parent edge of node `i`: its name and its parent's slot, or `None`
/// for the root.
pub open spec fn node_parent<D, F>(nodes: Seq<NodeView<D, F>>, i: int) -> Option<(Seq<char>, int)> {
    match nodes[i] {
        NodeView::Directory { parent, .. } => parent,
        NodeView::File { parent, .. } => Some(parent),
    }
}

/// The name by which node `i`'s parent knows it, or `None` for the root.
pub open spec fn node_name<D, F>(nodes: Seq<NodeView<D, F>>, i: int) -> Option<Seq<char>> {
    match node_parent(nodes, i) {
        Some(edge) => Some(edge.0),
        None => None,
    }
}

/// Whether `i` is a valid slot holding a directory.
pub open spec fn is_dir<D, F>(nodes: Seq<NodeView<D, F>>, i: int) -> bool {
    0 <= i < nodes.len() && nodes[i] is Directory
}

/// Whether `i` is a valid slot holding a file.
pub open spec fn is_file<D, F>(nodes: Seq<NodeView<D, F>>, i: int) -> bool {
    0 <= i < nodes.len() && nodes[i] is File
}

/// The children of node `i` (empty for a file).
pub open spec fn children_of<D, F>(nodes: Seq<NodeView<D, F>>, i: int) -> Map<Seq<char>, int> {
    match nodes[i] {
        NodeView::Directory { children, .. } => children,
        NodeView::File { .. } => Map::empty(),
    }
}

/// The payload of directory `i`.
pub open spec fn dir_value<D, F>(nodes: Seq<NodeView<D, F>>, i: int) -> D {
    match nodes[i] {
        NodeView::Directory { value, .. } => value,
        NodeView::File { .. } => vstd::pervasive::arbitrary(),
    }
}

/// The payload of file `i`.
pub open spec fn file_value<D, F>(nodes: Seq<NodeView<D, F>>, i: int) -> F {
    match nodes[i] {
        NodeView::File { value, .. } => value,
        NodeView::Directory { .. } => vstd::pervasive::arbitrary(),
    }
}

/// Well-formedness of a tree.
///
/// Slot 0 holds the root, the only directory without a parent edge.  Every
/// parent edge points backwards to an earlier slot, which holds a
/// directory whose children map knows the node under exactly the edge's
/// name; conversely every child named by a directory is a valid slot whose
/// parent edge points back at that directory under that name.  The
/// back-pointer never dangles: the arena keeps a node alive for as long as
/// the tree itself lives.
pub open spec fn wf_nodes<D, F>(nodes: Seq<NodeView<D, F>>) -> bool {
    &&& nodes.len() >= 1
    &&& nodes[0] is Directory
    &&& node_parent(nodes, 0) is None
    &&& forall|i: int| 1 <= i < nodes.len() ==> (#[trigger] node_parent(nodes, i)) is Some
    &&& forall|i: int|
        0 <= i < nodes.len() ==> match #[trigger] node_parent(nodes, i) {
            Some(edge) => 0 <= edge.1 < i && is_dir(nodes, edge.1) && children_of(
                nodes,
                edge.1,
            ).contains_key(edge.0) && children_of(nodes, edge.1)[edge.0] == i,
            None => true,
        }
    &&& forall|i: int, n: Seq<char>|
        0 <= i < nodes.len() && #[trigger] children_of(nodes, i).contains_key(n) ==> {
            let j = children_of(nodes, i)[n];
            0 <= j < nodes.len() && node_parent(nodes, j) == Some((n, i))
        }
}

/// `node` with child `j` recorded under `name` (directories only).
pub open spec fn with_child<D, F>(node: NodeView<D, F>, name: Seq<char>, j: int) -> NodeView<
    D,
    F,
> {
    match node {
        NodeView::Directory { children, parent, value } => NodeView::Directory {
            children: children.insert(name, j),
            parent,
            value,
        },
        NodeView::File { .. } => node,
    }
}

/// The tree after directory `u` gains the fresh node `child` as a child
/// named `name`: the child occupies the next slot.
pub open spec fn add_child<D, F>(
    nodes: Seq<NodeView<D, F>>,
    u: int,
    name: Seq<char>,
    child: NodeView<D, F>,
) -> Seq<NodeView<D, F>> {
    nodes.update(u, with_child(nodes[u], name, nodes.len() as int)).push(child)
}

/// `node` with its directory payload replaced by `value`.
pub open spec fn with_dir_value<D, F>(node: NodeView<D, F>, value: D) -> NodeView<D, F> {
    match node {
        NodeView::Directory { children, parent, .. } => NodeView::Directory {
            children,
            parent,
            value,
        },
        NodeView::File { .. } => node,
    }
}

/// `node` with its file payload replaced by `value`.
pub open spec fn with_file_value<D, F>(node: NodeView<D, F>, value: F) -> NodeView<D, F> {
    match node {
        NodeView::File { parent, .. } => NodeView::File { parent, value },
        NodeView::Directory { .. } => node,
    }
}

/// Whether node `j` matches the node kind `ty`.
pub open spec fn kind_matches<D, F>(nodes: Seq<NodeView<D, F>>, j: int, ty: GetType) -> bool {
    match ty {
        GetType::Directory => is_dir(nodes, j),
        GetType::File => is_file(nodes, j),
    }
}

/// The names of directory `i`'s children whose node matches `ty`.
pub open spec fn children_of_kind<D, F>(nodes: Seq<NodeView<D, F>>, i: int, ty: GetType) -> Set<
    Seq<char>,
> {
    children_of(nodes, i).dom().filter(
        |n: Seq<char>| kind_matches(nodes, children_of(nodes, i)[n], ty),
    )
}

/// The absolute path of node `i`: `/` for the root, the parent's path
/// joined with the node's name otherwise.
///
/// The recursion is guarded on the parent's slot being smaller, which
/// every well-formed tree guarantees.
pub open spec fn node_path<D, F>(nodes: Seq<NodeView<D, F>>, i: int) -> Seq<char>
    decreases i,
{
    match node_parent(nodes, i) {
        None => seq!['/'],
        Some(edge) => {
            if !(0 <= edge.1 < i) {
                vstd::pervasive::arbitrary()
            } else if node_parent(nodes, edge.1) is None {
                seq!['/'] + edge.0
            } else {
                node_path(nodes, edge.1) + seq!['/'] + edge.0
            }
        },
    }
}

/// Well-formedness never looks at payloads: a tree with the same length,
/// parent edges, children maps and variants as a well-formed tree is
/// itself well-formed.
pub proof fn lemma_same_shape_wf<D, F, D2, F2>(
    nodes: Seq<NodeView<D, F>>,
    nodes1: Seq<NodeView<D2, F2>>,
)
    requires
        wf_nodes(nodes),
        nodes1.len() == nodes.len(),
        forall|i: int|
            0 <= i < nodes.len() ==> #[trigger] node_parent(nodes1, i) == node_parent(nodes, i),
        forall|i: int|
            0 <= i < nodes.len() ==> #[trigger] children_of(nodes1, i) == children_of(nodes, i),
        forall|i: int|
            0 <= i < nodes.len() ==> ((#[trigger] nodes1[i]) is Directory <==> nodes[i]
                is Directory),
    ensures
        wf_nodes(nodes1),
{
    assert(nodes1[0] is Directory);
    assert(node_parent(nodes1, 0) is None);
    assert forall|i: int| 1 <= i < nodes1.len() implies (#[trigger] node_parent(nodes1, i))
        is Some by {
        assert(node_parent(nodes1, i) == node_parent(nodes, i));
    }
    assert forall|i: int| 0 <= i < nodes1.len() implies match #[trigger] node_parent(nodes1, i) {
        Some(edge) => 0 <= edge.1 < i && is_dir(nodes1, edge.1) && children_of(
            nodes1,
            edge.1,
        ).contains_key(edge.0) && children_of(nodes1, edge.1)[edge.0] == i,
        None => true,
    } by {
        assert(node_parent(nodes1, i) == node_parent(nodes, i));
        match node_parent(nodes, i) {
            Some(edge) => {
                assert(is_dir(nodes, edge.1));
                assert(children_of(nodes1, edge.1) == children_of(nodes, edge.1));
            },
            None => {},
        }
    }
    assert forall|i: int, n: Seq<char>|
        0 <= i < nodes1.len() && #[trigger] children_of(nodes1, i).contains_key(n) implies {
        let j = children_of(nodes1, i)[n];
        0 <= j < nodes1.len() && node_parent(nodes1, j) == Some((n, i))
    } by {
        assert(children_of(nodes1, i) == children_of(nodes, i));
        let j = children_of(nodes, i)[n];
        assert(0 <= j < nodes.len() && node_parent(nodes, j) == Some((n, i)));
        assert(node_parent(nodes1, j) == node_parent(nodes, j));
    }
}

/// A node is the child of at most one directory, under one name.
///
/// In a well-formed tree, if two (directory, name) pairs name the same
/// child slot, they are the same pair; creation through `insert-if-absent`
/// therefore never leaves a node reachable under two names.
pub proof fn lemma_child_unique<D, F>(
    nodes: Seq<NodeView<D, F>>,
    d1: int,
    n1: Seq<char>,
    d2: int,
    n2: Seq<char>,
)
    requires
        wf_nodes(nodes),
        0 <= d1 < nodes.len(),
        0 <= d2 < nodes.len(),
        children_of(nodes, d1).contains_key(n1),
        children_of(nodes, d2).contains_key(n2),
        children_of(nodes, d1)[n1] == children_of(nodes, d2)[n2],
    ensures
        d1 == d2,
        n1 == n2,
{
    let j = children_of(nodes, d1)[n1];
    assert(node_parent(nodes, j) == Some((n1, d1)));
    assert(node_parent(nodes, j) == Some((n2, d2)));
}

} // verus!
