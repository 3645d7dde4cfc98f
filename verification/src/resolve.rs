//! The path-resolution state machine, at the specification level.
//!
//! [`resolve`] consumes one component at a time against a current node,
//! mutating the tree only when a missing segment is created on demand.  It
//! is the single definition the executable walk is proved against, and the
//! laws below are proved of it.

use vstd::prelude::*;

use crate::data::ValueType;
use crate::directory::{GetAction, GetError, GetType};
use crate::model::{
    add_child, children_of, dir_value, is_dir, is_file, node_parent, wf_nodes, NodeView,
};
use crate::path::ComponentView;

verus! {

/// The node created for a missing segment: an empty directory or a file,
/// with the default payload, wired back to its parent `u` under `name`.
pub open spec fn fresh_node<D: ValueType, F: ValueType>(
    kind: GetType,
    name: Seq<char>,
    u: int,
) -> NodeView<D, F> {
    match kind {
        GetType::Directory => NodeView::Directory {
            children: Map::empty(),
            parent: Some((name, u)),
            value: D::spec_default(),
        },
        GetType::File => NodeView::File { parent: (name, u), value: F::spec_default() },
    }
}

/// Resolves `comps` against the tree `nodes`, starting from `cur`.
///
/// Returns the tree after any on-demand creation, paired with the outcome:
/// the resolved slot, `None` when a `ReturnNone` policy stopped the walk,
/// or the error that aborted it.  One component is consumed per step:
///
/// * `.` is a no-op;
/// * a prefix is never supported;
/// * `/` demands that the current directory be the root;
/// * `..` moves to the parent, which must exist;
/// * a named segment is looked up among the children; when it is missing,
///   the policy for its position (`endpoint` for the last component,
///   `intermediate` otherwise) decides between stopping, failing, and
///   creating the node — a missing intermediate segment is always created
///   as a directory, a missing endpoint as `ty`.
///
/// A walk that stepped into a file fails on the next component.  Once the
/// outcome is `None` or an error, the tree no longer changes; directories
/// created before a later failure are kept.
pub open spec fn resolve<D: ValueType, F: ValueType>(
    nodes: Seq<NodeView<D, F>>,
    cur: Option<int>,
    comps: Seq<ComponentView>,
    intermediate: GetAction,
    endpoint: GetAction,
    ty: GetType,
) -> (Seq<NodeView<D, F>>, Result<Option<int>, GetError>)
    decreases comps.len(),
{
    if comps.len() == 0 {
        (nodes, Ok(cur))
    } else {
        match cur {
            None => (nodes, Ok(None)),
            Some(u) => {
                if nodes[u] is File {
                    (nodes, Err(GetError::UnexpectedFile))
                } else {
                    let rest = comps.skip(1);
                    match comps[0] {
                        ComponentView::Prefix => (nodes, Err(GetError::UnexpectedPrefix)),
                        ComponentView::CurDir => resolve(
                            nodes,
                            cur,
                            rest,
                            intermediate,
                            endpoint,
                            ty,
                        ),
                        ComponentView::RootDir => {
                            if node_parent(nodes, u) is None {
                                resolve(nodes, cur, rest, intermediate, endpoint, ty)
                            } else {
                                (nodes, Err(GetError::UnexpectedRoot))
                            }
                        },
                        ComponentView::ParentDir => {
                            match node_parent(nodes, u) {
                                Some(edge) => resolve(
                                    nodes,
                                    Some(edge.1),
                                    rest,
                                    intermediate,
                                    endpoint,
                                    ty,
                                ),
                                None => (nodes, Err(GetError::UnexpectedOrphan)),
                            }
                        },
                        ComponentView::Normal(name) => {
                            let children = children_of(nodes, u);
                            if children.contains_key(name) {
                                resolve(
                                    nodes,
                                    Some(children[name]),
                                    rest,
                                    intermediate,
                                    endpoint,
                                    ty,
                                )
                            } else {
                                let at_end = rest.len() == 0;
                                let action = if at_end {
                                    endpoint
                                } else {
                                    intermediate
                                };
                                match action {
                                    GetAction::ReturnNone => (nodes, Ok(None)),
                                    GetAction::ReturnError => (
                                        nodes,
                                        Err(
                                            if at_end {
                                                GetError::EndpointNotFound
                                            } else {
                                                GetError::IntermediateNotFound
                                            },
                                        ),
                                    ),
                                    GetAction::CreateDefault => {
                                        let kind = if at_end {
                                            ty
                                        } else {
                                            GetType::Directory
                                        };
                                        let j = nodes.len() as int;
                                        let grown = add_child(
                                            nodes,
                                            u,
                                            name,
                                            fresh_node(kind, name, u),
                                        );
                                        resolve(grown, Some(j), rest, intermediate, endpoint, ty)
                                    },
                                }
                            }
                        },
                    }
                }
            },
        }
    }
}

/// Whether `cur` addresses a valid slot whenever it is `Some`.
pub open spec fn cur_in_range<D, F>(nodes: Seq<NodeView<D, F>>, cur: Option<int>) -> bool {
    match cur {
        Some(u) => 0 <= u < nodes.len(),
        None => true,
    }
}

/// Adding a fresh child under an absent name preserves well-formedness.
pub proof fn lemma_add_child_wf<D: ValueType, F: ValueType>(
    nodes: Seq<NodeView<D, F>>,
    u: int,
    name: Seq<char>,
    kind: GetType,
)
    requires
        wf_nodes(nodes),
        is_dir(nodes, u),
        !children_of(nodes, u).contains_key(name),
    ensures
        wf_nodes(add_child(nodes, u, name, fresh_node(kind, name, u))),
{
    let j = nodes.len() as int;
    let grown = add_child(nodes, u, name, fresh_node::<D, F>(kind, name, u));
    assert(grown.len() == nodes.len() + 1);
    assert(grown[j] == fresh_node::<D, F>(kind, name, u));
    assert(forall|i: int|
        0 <= i < nodes.len() && i != u ==> grown[i] == nodes[i]);
    assert(node_parent(grown, u) == node_parent(nodes, u));
    assert(children_of(grown, u) == children_of(nodes, u).insert(name, j));
    assert(node_parent(grown, j) == Some((name, u)));
    assert(node_parent(grown, 0) is None);
    assert(grown[0] is Directory);
    assert forall|i: int| 1 <= i < grown.len() implies (#[trigger] node_parent(grown, i))
        is Some by {
        if i < nodes.len() {
            assert(node_parent(grown, i) == node_parent(nodes, i));
        }
    }
    assert forall|i: int| 0 <= i < grown.len() implies match #[trigger] node_parent(grown, i) {
        Some(edge) => 0 <= edge.1 < i && is_dir(grown, edge.1) && children_of(
            grown,
            edge.1,
        ).contains_key(edge.0) && children_of(grown, edge.1)[edge.0] == i,
        None => true,
    } by {
        if i < nodes.len() {
            assert(node_parent(grown, i) == node_parent(nodes, i));
            match node_parent(nodes, i) {
                Some(edge) => {
                    if edge.1 == u {
                        assert(children_of(grown, u)[edge.0] == children_of(nodes, u)[edge.0]);
                    }
                },
                None => {},
            }
        }
    }
    assert forall|i: int, n: Seq<char>|
        0 <= i < grown.len() && #[trigger] children_of(grown, i).contains_key(n) implies {
        let k = children_of(grown, i)[n];
        0 <= k < grown.len() && node_parent(grown, k) == Some((n, i))
    } by {
        if i == u {
            if n == name {
                assert(children_of(grown, u)[name] == j);
            } else {
                assert(children_of(nodes, u).contains_key(n));
                assert(children_of(grown, u)[n] == children_of(nodes, u)[n]);
                let k = children_of(nodes, u)[n];
                assert(node_parent(grown, k) == node_parent(nodes, k));
            }
        } else if i == j {
            assert(children_of(grown, j) =~= Map::<Seq<char>, int>::empty());
        } else if 0 <= i < nodes.len() {
            assert(children_of(grown, i) == children_of(nodes, i));
            let k = children_of(nodes, i)[n];
            assert(node_parent(grown, k) == node_parent(nodes, k));
        }
    }
}

/// How a tree may relate to a later state of itself: it only grows.
///
/// Existing nodes keep their variant, parent edge and payload; a
/// directory's children map only gains entries; files do not change at
/// all.
pub open spec fn preserves_nodes<D, F>(
    nodes: Seq<NodeView<D, F>>,
    nodes1: Seq<NodeView<D, F>>,
) -> bool {
    &&& nodes1.len() >= nodes.len()
    &&& forall|i: int|
        0 <= i < nodes.len() ==> #[trigger] node_parent(nodes1, i) == node_parent(nodes, i)
    &&& forall|i: int|
        #[trigger] is_dir(nodes, i) ==> is_dir(nodes1, i) && dir_value(nodes1, i) == dir_value(
            nodes,
            i,
        )
    &&& forall|i: int| #[trigger] is_file(nodes, i) ==> nodes1[i] == nodes[i]
    &&& forall|i: int, n: Seq<char>|
        0 <= i < nodes.len() && #[trigger] children_of(nodes, i).contains_key(n) ==> children_of(
            nodes1,
            i,
        ).contains_key(n) && children_of(nodes1, i)[n] == children_of(nodes, i)[n]
}

pub proof fn lemma_preserves_nodes_trans<D, F>(
    a: Seq<NodeView<D, F>>,
    b: Seq<NodeView<D, F>>,
    c: Seq<NodeView<D, F>>,
)
    requires
        preserves_nodes(a, b),
        preserves_nodes(b, c),
    ensures
        preserves_nodes(a, c),
{
    assert forall|i: int| 0 <= i < a.len() implies #[trigger] node_parent(c, i) == node_parent(
        a,
        i,
    ) by {
        assert(node_parent(b, i) == node_parent(a, i));
    }
    assert forall|i: int| #[trigger] is_dir(a, i) implies is_dir(c, i) && dir_value(c, i)
        == dir_value(a, i) by {
        assert(is_dir(b, i) && dir_value(b, i) == dir_value(a, i));
    }
    assert forall|i: int| #[trigger] is_file(a, i) implies c[i] == a[i] by {
        assert(b[i] == a[i]);
        assert(is_file(b, i));
    }
    assert forall|i: int, n: Seq<char>|
        0 <= i < a.len() && #[trigger] children_of(a, i).contains_key(n) implies children_of(
        c,
        i,
    ).contains_key(n) && children_of(c, i)[n] == children_of(a, i)[n] by {
        assert(children_of(b, i).contains_key(n) && children_of(b, i)[n] == children_of(a, i)[n]);
    }
}

/// Adding a fresh child only grows the tree.
pub proof fn lemma_add_child_preserves<D: ValueType, F: ValueType>(
    nodes: Seq<NodeView<D, F>>,
    u: int,
    name: Seq<char>,
    kind: GetType,
)
    requires
        is_dir(nodes, u),
        !children_of(nodes, u).contains_key(name),
    ensures
        preserves_nodes(nodes, add_child(nodes, u, name, fresh_node(kind, name, u))),
{
    let grown = add_child(nodes, u, name, fresh_node::<D, F>(kind, name, u));
    assert(forall|i: int| 0 <= i < nodes.len() && i != u ==> grown[i] == nodes[i]);
    assert(node_parent(grown, u) == node_parent(nodes, u));
    assert(children_of(grown, u) == children_of(nodes, u).insert(name, nodes.len() as int));
    assert(is_dir(grown, u) && dir_value(grown, u) == dir_value(nodes, u));
}

/// What every walk preserves: the tree only grows (see
/// [`preserves_nodes`]), well-formedness is kept, and a resolved slot is
/// valid in the resulting tree.
pub proof fn lemma_resolve_props<D: ValueType, F: ValueType>(
    nodes: Seq<NodeView<D, F>>,
    cur: Option<int>,
    comps: Seq<ComponentView>,
    intermediate: GetAction,
    endpoint: GetAction,
    ty: GetType,
)
    requires
        wf_nodes(nodes),
        cur_in_range(nodes, cur),
    ensures
        ({
            let (nodes1, r) = resolve(nodes, cur, comps, intermediate, endpoint, ty);
            &&& preserves_nodes(nodes, nodes1)
            &&& wf_nodes(nodes1)
            &&& match r {
                Ok(Some(j)) => 0 <= j < nodes1.len(),
                _ => true,
            }
        }),
    decreases comps.len(),
{
    let (nodes1, r) = resolve(nodes, cur, comps, intermediate, endpoint, ty);
    if comps.len() == 0 {
    } else {
        match cur {
            None => {},
            Some(u) => {
                if nodes[u] is File {
                } else {
                    let rest = comps.skip(1);
                    match comps[0] {
                        ComponentView::Prefix => {},
                        ComponentView::CurDir => {
                            lemma_resolve_props(nodes, cur, rest, intermediate, endpoint, ty);
                        },
                        ComponentView::RootDir => {
                            if node_parent(nodes, u) is None {
                                lemma_resolve_props(nodes, cur, rest, intermediate, endpoint, ty);
                            }
                        },
                        ComponentView::ParentDir => {
                            match node_parent(nodes, u) {
                                Some(edge) => {
                                    lemma_resolve_props(
                                        nodes,
                                        Some(edge.1),
                                        rest,
                                        intermediate,
                                        endpoint,
                                        ty,
                                    );
                                },
                                None => {},
                            }
                        },
                        ComponentView::Normal(name) => {
                            let children = children_of(nodes, u);
                            if children.contains_key(name) {
                                lemma_resolve_props(
                                    nodes,
                                    Some(children[name]),
                                    rest,
                                    intermediate,
                                    endpoint,
                                    ty,
                                );
                            } else {
                                let at_end = rest.len() == 0;
                                let action = if at_end {
                                    endpoint
                                } else {
                                    intermediate
                                };
                                match action {
                                    GetAction::ReturnNone => {},
                                    GetAction::ReturnError => {},
                                    GetAction::CreateDefault => {
                                        let kind = if at_end {
                                            ty
                                        } else {
                                            GetType::Directory
                                        };
                                        let j = nodes.len() as int;
                                        let grown = add_child(
                                            nodes,
                                            u,
                                            name,
                                            fresh_node(kind, name, u),
                                        );
                                        lemma_add_child_wf::<D, F>(nodes, u, name, kind);
                                        lemma_add_child_preserves::<D, F>(nodes, u, name, kind);
                                        lemma_resolve_props(
                                            grown,
                                            Some(j),
                                            rest,
                                            intermediate,
                                            endpoint,
                                            ty,
                                        );
                                        lemma_preserves_nodes_trans(nodes, grown, nodes1);
                                    },
                                }
                            }
                        },
                    }
                }
            },
        }
    }
}

pub proof fn lemma_resolve_no_create<D: ValueType, F: ValueType>(
    nodes: Seq<NodeView<D, F>>,
    cur: Option<int>,
    comps: Seq<ComponentView>,
    intermediate: GetAction,
    endpoint: GetAction,
    ty: GetType,
)
    requires
        intermediate != GetAction::CreateDefault,
        endpoint != GetAction::CreateDefault,
    ensures
        resolve(nodes, cur, comps, intermediate, endpoint, ty).0 == nodes,
    decreases comps.len(),
{
    if comps.len() == 0 {
    } else {
        match cur {
            None => {},
            Some(u) => {
                if nodes[u] is File {
                } else {
                    let rest = comps.skip(1);
                    match comps[0] {
                        ComponentView::Prefix => {},
                        ComponentView::CurDir => {
                            lemma_resolve_no_create(nodes, cur, rest, intermediate, endpoint, ty);
                        },
                        ComponentView::RootDir => {
                            if node_parent(nodes, u) is None {
                                lemma_resolve_no_create(
                                    nodes,
                                    cur,
                                    rest,
                                    intermediate,
                                    endpoint,
                                    ty,
                                );
                            }
                        },
                        ComponentView::ParentDir => {
                            match node_parent(nodes, u) {
                                Some(edge) => {
                                    lemma_resolve_no_create(
                                        nodes,
                                        Some(edge.1),
                                        rest,
                                        intermediate,
                                        endpoint,
                                        ty,
                                    );
                                },
                                None => {},
                            }
                        },
                        ComponentView::Normal(name) => {
                            let children = children_of(nodes, u);
                            if children.contains_key(name) {
                                lemma_resolve_no_create(
                                    nodes,
                                    Some(children[name]),
                                    rest,
                                    intermediate,
                                    endpoint,
                                    ty,
                                );
                            }
                        },
                    }
                }
            },
        }
    }
}

/// Resolution is idempotent: once a walk has succeeded, walking the same
/// components again from the same start returns the same node and leaves
/// the tree untouched, whatever the policies and node kind of the second
/// walk.
///
/// In particular, resolving a path with create-on-demand twice yields the
/// same handle both times and creates nothing the second time; and a
/// freshly created path resolves, under any read-only policy, to exactly
/// the node that was created.
#[verifier::rlimit(100)]
pub proof fn lemma_resolve_idempotent<D: ValueType, F: ValueType>(
    nodes: Seq<NodeView<D, F>>,
    cur: Option<int>,
    comps: Seq<ComponentView>,
    intermediate: GetAction,
    endpoint: GetAction,
    ty: GetType,
    intermediate2: GetAction,
    endpoint2: GetAction,
    ty2: GetType,
)
    requires
        wf_nodes(nodes),
        cur_in_range(nodes, cur),
        resolve(nodes, cur, comps, intermediate, endpoint, ty).1 matches Ok(o) && o is Some,
    ensures
        ({
            let (nodes1, r) = resolve(nodes, cur, comps, intermediate, endpoint, ty);
            resolve(nodes1, cur, comps, intermediate2, endpoint2, ty2) == (nodes1, r)
        }),
    decreases comps.len(),
{
    let (nodes1, r) = resolve(nodes, cur, comps, intermediate, endpoint, ty);
    if comps.len() == 0 {
    } else {
        match cur {
            None => {
                assert(false);
            },
            Some(u) => {
                if nodes[u] is File {
                } else {
                    assert(is_dir(nodes, u));
                    let rest = comps.skip(1);
                    match comps[0] {
                        ComponentView::Prefix => {},
                        ComponentView::CurDir => {
                            lemma_resolve_props(nodes, cur, rest, intermediate, endpoint, ty);
                            lemma_resolve_idempotent(
                                nodes,
                                cur,
                                rest,
                                intermediate,
                                endpoint,
                                ty,
                                intermediate2,
                                endpoint2,
                                ty2,
                            );
                            assert(is_dir(nodes1, u));
                        },
                        ComponentView::RootDir => {
                            if node_parent(nodes, u) is None {
                                lemma_resolve_props(nodes, cur, rest, intermediate, endpoint, ty);
                                lemma_resolve_idempotent(
                                    nodes,
                                    cur,
                                    rest,
                                    intermediate,
                                    endpoint,
                                    ty,
                                    intermediate2,
                                    endpoint2,
                                    ty2,
                                );
                                assert(is_dir(nodes1, u));
                                assert(node_parent(nodes1, u) is None);
                            }
                        },
                        ComponentView::ParentDir => {
                            match node_parent(nodes, u) {
                                Some(edge) => {
                                    lemma_resolve_props(
                                        nodes,
                                        Some(edge.1),
                                        rest,
                                        intermediate,
                                        endpoint,
                                        ty,
                                    );
                                    lemma_resolve_idempotent(
                                        nodes,
                                        Some(edge.1),
                                        rest,
                                        intermediate,
                                        endpoint,
                                        ty,
                                        intermediate2,
                                        endpoint2,
                                        ty2,
                                    );
                                    assert(is_dir(nodes1, u));
                                    assert(node_parent(nodes1, u) == node_parent(nodes, u));
                                },
                                None => {},
                            }
                        },
                        ComponentView::Normal(name) => {
                            let children = children_of(nodes, u);
                            if children.contains_key(name) {
                                let k = children[name];
                                lemma_resolve_props(
                                    nodes,
                                    Some(k),
                                    rest,
                                    intermediate,
                                    endpoint,
                                    ty,
                                );
                                lemma_resolve_idempotent(
                                    nodes,
                                    Some(k),
                                    rest,
                                    intermediate,
                                    endpoint,
                                    ty,
                                    intermediate2,
                                    endpoint2,
                                    ty2,
                                );
                                assert(is_dir(nodes1, u));
                                assert(children_of(nodes1, u).contains_key(name) && children_of(
                                    nodes1,
                                    u,
                                )[name] == k);
                            } else {
                                let at_end = rest.len() == 0;
                                let action = if at_end {
                                    endpoint
                                } else {
                                    intermediate
                                };
                                match action {
                                    GetAction::ReturnNone => {
                                        assert(false);
                                    },
                                    GetAction::ReturnError => {},
                                    GetAction::CreateDefault => {
                                        let kind = if at_end {
                                            ty
                                        } else {
                                            GetType::Directory
                                        };
                                        let j = nodes.len() as int;
                                        let grown = add_child(
                                            nodes,
                                            u,
                                            name,
                                            fresh_node(kind, name, u),
                                        );
                                        lemma_add_child_wf::<D, F>(nodes, u, name, kind);
                                        lemma_add_child_preserves::<D, F>(nodes, u, name, kind);
                                        assert(children_of(grown, u).contains_key(name)
                                            && children_of(grown, u)[name] == j);
                                        assert(is_dir(grown, u));
                                        lemma_resolve_props(
                                            grown,
                                            Some(j),
                                            rest,
                                            intermediate,
                                            endpoint,
                                            ty,
                                        );
                                        lemma_resolve_idempotent(
                                            grown,
                                            Some(j),
                                            rest,
                                            intermediate,
                                            endpoint,
                                            ty,
                                            intermediate2,
                                            endpoint2,
                                            ty2,
                                        );
                                        assert(is_dir(nodes1, u));
                                        assert(children_of(nodes1, u).contains_key(name)
                                            && children_of(nodes1, u)[name] == j);
                                    },
                                }
                            }
                        },
                    }
                }
            },
        }
    }
}

pub proof fn lemma_resolve_create_finds<D: ValueType, F: ValueType>(
    nodes: Seq<NodeView<D, F>>,
    cur: Option<int>,
    comps: Seq<ComponentView>,
    ty: GetType,
)
    requires
        cur is Some,
    ensures
        ({
            let r = resolve(
                nodes,
                cur,
                comps,
                GetAction::CreateDefault,
                GetAction::CreateDefault,
                ty,
            ).1;
            match r {
                Ok(o) => o is Some,
                Err(_) => true,
            }
        }),
    decreases comps.len(),
{
    let intermediate = GetAction::CreateDefault;
    let endpoint = GetAction::CreateDefault;
    if comps.len() == 0 {
    } else {
        let u = cur.unwrap();
        if nodes[u] is File {
        } else {
            let rest = comps.skip(1);
            match comps[0] {
                ComponentView::Prefix => {},
                ComponentView::CurDir => {
                    lemma_resolve_create_finds(nodes, cur, rest, ty);
                },
                ComponentView::RootDir => {
                    if node_parent(nodes, u) is None {
                        lemma_resolve_create_finds(nodes, cur, rest, ty);
                    }
                },
                ComponentView::ParentDir => {
                    match node_parent(nodes, u) {
                        Some(edge) => {
                            lemma_resolve_create_finds(nodes, Some(edge.1), rest, ty);
                        },
                        None => {},
                    }
                },
                ComponentView::Normal(name) => {
                    let children = children_of(nodes, u);
                    if children.contains_key(name) {
                        lemma_resolve_create_finds(nodes, Some(children[name]), rest, ty);
                    } else {
                        let at_end = rest.len() == 0;
                        let kind = if at_end {
                            ty
                        } else {
                            GetType::Directory
                        };
                        let j = nodes.len() as int;
                        let grown = add_child(nodes, u, name, fresh_node(kind, name, u));
                        lemma_resolve_create_finds(grown, Some(j), rest, ty);
                    }
                },
            }
        }
    }
}
pub proof fn lemma_parent_of_root_fails<D: ValueType, F: ValueType>(
    nodes: Seq<NodeView<D, F>>,
    intermediate: GetAction,
    endpoint: GetAction,
    ty: GetType,
)
    requires
        wf_nodes(nodes),
    ensures
        resolve(nodes, Some(0), seq![ComponentView::ParentDir], intermediate, endpoint, ty) == (
        nodes,
        Result::<Option<int>, GetError>::Err(GetError::UnexpectedOrphan),
        ),
{
    let comps = seq![ComponentView::ParentDir];
    assert(comps[0] == ComponentView::ParentDir);
    assert(node_parent(nodes, 0) is None);
}

/// A walk fails only with the documented path errors: `Other` stands for
/// a state the resolver cannot reach, and is never returned.
pub proof fn lemma_resolve_never_other<D: ValueType, F: ValueType>(
    nodes: Seq<NodeView<D, F>>,
    cur: Option<int>,
    comps: Seq<ComponentView>,
    intermediate: GetAction,
    endpoint: GetAction,
    ty: GetType,
)
    ensures
        resolve(nodes, cur, comps, intermediate, endpoint, ty).1 != Result::<
            Option<int>,
            GetError,
        >::Err(GetError::Other),
    decreases comps.len(),
{
    if comps.len() == 0 {
    } else {
        match cur {
            None => {},
            Some(u) => {
                if nodes[u] is File {
                } else {
                    let rest = comps.skip(1);
                    match comps[0] {
                        ComponentView::Prefix => {},
                        ComponentView::CurDir => {
                            lemma_resolve_never_other(
                                nodes,
                                cur,
                                rest,
                                intermediate,
                                endpoint,
                                ty,
                            );
                        },
                        ComponentView::RootDir => {
                            if node_parent(nodes, u) is None {
                                lemma_resolve_never_other(
                                    nodes,
                                    cur,
                                    rest,
                                    intermediate,
                                    endpoint,
                                    ty,
                                );
                            }
                        },
                        ComponentView::ParentDir => {
                            match node_parent(nodes, u) {
                                Some(edge) => {
                                    lemma_resolve_never_other(
                                        nodes,
                                        Some(edge.1),
                                        rest,
                                        intermediate,
                                        endpoint,
                                        ty,
                                    );
                                },
                                None => {},
                            }
                        },
                        ComponentView::Normal(name) => {
                            let children = children_of(nodes, u);
                            if children.contains_key(name) {
                                lemma_resolve_never_other(
                                    nodes,
                                    Some(children[name]),
                                    rest,
                                    intermediate,
                                    endpoint,
                                    ty,
                                );
                            } else {
                                let at_end = rest.len() == 0;
                                let action = if at_end {
                                    endpoint
                                } else {
                                    intermediate
                                };
                                match action {
                                    GetAction::ReturnNone => {},
                                    GetAction::ReturnError => {},
                                    GetAction::CreateDefault => {
                                        let kind = if at_end {
                                            ty
                                        } else {
                                            GetType::Directory
                                        };
                                        let grown = add_child(
                                            nodes,
                                            u,
                                            name,
                                            fresh_node(kind, name, u),
                                        );
                                        lemma_resolve_never_other(
                                            grown,
                                            Some(nodes.len() as int),
                                            rest,
                                            intermediate,
                                            endpoint,
                                            ty,
                                        );
                                    },
                                }
                            }
                        },
                    }
                }
            },
        }
    }
}

} // verus!
