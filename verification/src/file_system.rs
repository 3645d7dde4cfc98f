//! The tree itself: an arena of nodes behind the handle types.
//!
//! Nodes live in a vector; a handle is the index of its node.  A
//! directory's children are an association list of (name, slot) entries
//! with pairwise-distinct names, which views as the children map of the
//! model.  Creation only ever appends, so a parent's slot is always
//! smaller than its children's slots, and no handle ever dangles.

use vstd::prelude::*;

use crate::data::{Value, ValueType};
use crate::directory::{Directory, GetAction, GetError, GetPosition, GetType};
use crate::file::File;
use crate::model::{
    children_of, dir_value, file_value, is_dir, is_file, node_parent, wf_nodes, NodeView,
};
use crate::node::Node;
use crate::path::Component;
use crate::reference::ParentRef;
use crate::resolve::{fresh_node, lemma_add_child_wf, resolve};

verus! {

broadcast use crate::directory::lemma_directory_id, crate::file::lemma_file_id;

/// One (name, slot) entry of a directory's children list.
#[derive(Debug)]
struct ChildEntry {
    name: String,
    id: usize,
}

/// A node's payload cell, tagged with the node's kind.
#[derive(Debug)]
enum RawPayload<D, F> {
    Directory(Value<D>),
    File(Value<F>),
}

/// One slot of the arena.
#[derive(Debug)]
struct RawNode<D, F> {
    children: Vec<ChildEntry>,
    parent: Option<ParentRef>,
    payload: RawPayload<D, F>,
}

/// The tree: a root directory and everything ever created beneath it.
///
/// Its view is the model sequence `Seq<NodeView<D, F>>`; the root occupies
/// slot 0.  `D` is the payload type of directories, `F` of files.
#[derive(Debug)]
pub struct FileSystem<D, F> {
    nodes: Vec<RawNode<D, F>>,
}

/// The children map an entry list stands for.
spec fn entries_map(s: Seq<ChildEntry>) -> Map<Seq<char>, int>
    decreases s.len(),
{
    if s.len() == 0 {
        Map::empty()
    } else {
        entries_map(s.drop_last()).insert(s.last().name@, s.last().id as int)
    }
}

spec fn parent_edge_view(p: Option<ParentRef>) -> Option<(Seq<char>, int)> {
    match p {
        Some(edge) => Some(edge@),
        None => None,
    }
}

spec fn raw_view<D, F>(n: RawNode<D, F>) -> NodeView<D, F> {
    match n.payload {
        RawPayload::Directory(cell) => NodeView::Directory {
            children: entries_map(n.children@),
            parent: parent_edge_view(n.parent),
            value: cell@,
        },
        RawPayload::File(cell) => NodeView::File {
            parent: (match n.parent {
                Some(edge) => edge@,
                None => vstd::pervasive::arbitrary(),
            }),
            value: cell@,
        },
    }
}

/// Pairwise-distinct entry names.
spec fn entries_distinct(s: Seq<ChildEntry>) -> bool {
    forall|i: int, j: int| 0 <= i < j < s.len() ==> s[i].name@ != s[j].name@
}

spec fn raw_inv<D, F>(n: RawNode<D, F>) -> bool {
    &&& entries_distinct(n.children@)
    &&& (n.payload is File ==> n.parent is Some && n.children@.len() == 0)
}

proof fn lemma_entries_map_push(s: Seq<ChildEntry>, e: ChildEntry)
    ensures
        entries_map(s.push(e)) == entries_map(s).insert(e.name@, e.id as int),
{
    assert(s.push(e).drop_last() =~= s);
    assert(s.push(e).last() == e);
}

proof fn lemma_entries_map_index(s: Seq<ChildEntry>, i: int)
    requires
        entries_distinct(s),
        0 <= i < s.len(),
    ensures
        entries_map(s).contains_key(s[i].name@),
        entries_map(s)[s[i].name@] == s[i].id as int,
    decreases s.len(),
{
    if i == s.len() - 1 {
    } else {
        assert(entries_distinct(s.drop_last())) by {
            assert(forall|a: int, b: int|
                0 <= a < b < s.len() - 1 ==> s.drop_last()[a] == s[a] && s.drop_last()[b] == s[b]);
        }
        lemma_entries_map_index(s.drop_last(), i);
        assert(s.drop_last()[i] == s[i]);
        assert(s.last().name@ != s[i].name@);
    }
}

proof fn lemma_entries_map_absent(s: Seq<ChildEntry>, name: Seq<char>)
    requires
        forall|i: int| 0 <= i < s.len() ==> s[i].name@ != name,
    ensures
        !entries_map(s).contains_key(name),
    decreases s.len(),
{
    if s.len() > 0 {
        assert(forall|i: int| 0 <= i < s.len() - 1 ==> s.drop_last()[i] == s[i]);
        lemma_entries_map_absent(s.drop_last(), name);
        assert(s.last().name@ != name);
    }
}

proof fn lemma_entries_map_len(s: Seq<ChildEntry>)
    requires
        entries_distinct(s),
    ensures
        entries_map(s).dom().finite(),
        entries_map(s).dom().len() == s.len(),
    decreases s.len(),
{
    broadcast use vstd::set::axiom_set_insert_len;

    if s.len() == 0 {
        assert(entries_map(s).dom() =~= Set::<Seq<char>>::empty());
    } else {
        assert(entries_distinct(s.drop_last())) by {
            assert(forall|a: int, b: int|
                0 <= a < b < s.len() - 1 ==> s.drop_last()[a] == s[a] && s.drop_last()[b] == s[b]);
        }
        lemma_entries_map_len(s.drop_last());
        assert(forall|i: int| 0 <= i < s.len() - 1 ==> s.drop_last()[i] == s[i]);
        lemma_entries_map_absent(s.drop_last(), s.last().name@);
        assert(entries_map(s).dom() =~= entries_map(s.drop_last()).dom().insert(s.last().name@));
    }
}

impl<D, F> View for FileSystem<D, F> {
    type V = Seq<NodeView<D, F>>;

    closed spec fn view(&self) -> Seq<NodeView<D, F>> {
        self.nodes@.map(|i: int, n: RawNode<D, F>| raw_view(n))
    }
}

impl<D, F> FileSystem<D, F> {
    spec fn inv(&self) -> bool {
        forall|i: int| 0 <= i < self.nodes@.len() ==> raw_inv(#[trigger] self.nodes@[i])
    }

    /// Well-formedness: the representation invariant together with the
    /// model invariant [`wf_nodes`].  Every operation of the library
    /// requires and preserves it.
    pub closed spec fn wf(&self) -> bool {
        self.inv() && wf_nodes(self@)
    }

    /// A handle to the root directory, at slot 0.
    pub fn root(&self) -> (r: Directory)
        requires
            self.wf(),
        ensures
            r.id() == 0,
            is_dir(self@, 0),
    {
        Directory { id: 0 }
    }

    /// Whether `dir` addresses a directory of this tree.
    pub fn contains_dir(&self, dir: &Directory) -> (r: bool)
        requires
            self.wf(),
        ensures
            r == is_dir(self@, dir.id()),
    {
        proof {
            if (dir.id as int) < self.nodes@.len() {
                assert(self@[dir.id as int] == raw_view(self.nodes@[dir.id as int]));
            }
        }
        dir.id < self.nodes.len() && (match &self.nodes[dir.id].payload {
            RawPayload::Directory(_) => true,
            RawPayload::File(_) => false,
        })
    }

    /// Whether `file` addresses a file of this tree.
    pub fn contains_file(&self, file: &File) -> (r: bool)
        requires
            self.wf(),
        ensures
            r == is_file(self@, file.id()),
    {
        proof {
            if (file.id as int) < self.nodes@.len() {
                assert(self@[file.id as int] == raw_view(self.nodes@[file.id as int]));
            }
        }
        file.id < self.nodes.len() && (match &self.nodes[file.id].payload {
            RawPayload::File(_) => true,
            RawPayload::Directory(_) => false,
        })
    }

    /// Whether `node` addresses a node of this tree, with its variant.
    pub fn contains_node(&self, node: &Node) -> (r: bool)
        requires
            self.wf(),
        ensures
            r == node.matches_tree(self@),
    {
        match node {
            Node::Directory(dir) => self.contains_dir(dir),
            Node::File(file) => self.contains_file(file),
        }
    }

    /// The parent back-edge of node `id`: its name and parent handle, or
    /// `None` for the root.
    pub(crate) fn parent_edge(&self, id: usize) -> (r: Option<ParentRef>)
        requires
            self.wf(),
            (id as int) < self@.len(),
        ensures
            parent_edge_matches(r, self@, id as int),
    {
        proof {
            assert(self@[id as int] == raw_view(self.nodes@[id as int]));
        }
        match &self.nodes[id].parent {
            Some(ParentRef::Directory(name, dir)) => Some(
                ParentRef::Directory(name.clone(), *dir),
            ),
            None => None,
        }
    }
}

/// A well-formed tree is well-formed as a model: the model invariant
/// [`wf_nodes`] follows from [`FileSystem::wf`].
pub broadcast proof fn lemma_wf_implies_wf_nodes<D, F>(fs: &FileSystem<D, F>)
    ensures
        #[trigger] fs.wf() ==> wf_nodes(fs@),
{
}

/// Whether an optional back-edge value agrees with the model's parent
/// edge of node `i`.
pub open spec fn parent_edge_matches<D, F>(
    r: Option<ParentRef>,
    nodes: Seq<NodeView<D, F>>,
    i: int,
) -> bool {
    match r {
        Some(edge) => node_parent(nodes, i) == Some(edge@),
        None => node_parent(nodes, i) is None,
    }
}

impl<D: ValueType, F: ValueType> FileSystem<D, F> {
    /// Creates a tree holding nothing but an empty root directory with a
    /// default payload.
    pub fn new() -> (r: Self)
        ensures
            r.wf(),
            r@.len() == 1,
            r@[0] == (NodeView::<D, F>::Directory {
                children: Map::<Seq<char>, int>::empty(),
                parent: Option::<(Seq<char>, int)>::None,
                value: D::spec_default(),
            }),
    {
        let mut nodes: Vec<RawNode<D, F>> = Vec::new();
        nodes.push(
            RawNode {
                children: Vec::new(),
                parent: None,
                payload: RawPayload::Directory(Value::from_option(None)),
            },
        );
        let fs = FileSystem { nodes };
        proof {
            assert(fs@.len() == 1);
            assert(fs@[0] == raw_view(fs.nodes@[0]));
            assert(entries_map(fs.nodes@[0].children@) =~= Map::<Seq<char>, int>::empty());
            assert(fs@[0] == (NodeView::<D, F>::Directory {
                children: Map::<Seq<char>, int>::empty(),
                parent: Option::<(Seq<char>, int)>::None,
                value: D::spec_default(),
            }));
            assert(wf_nodes(fs@)) by {
                assert(node_parent(fs@, 0) is None);
                assert forall|i: int, n: Seq<char>|
                    0 <= i < fs@.len() && #[trigger] children_of(fs@, i).contains_key(
                        n,
                    ) implies false by {
                    assert(children_of(fs@, 0) == Map::<Seq<char>, int>::empty());
                }
            }
        }
        fs
    }
}

impl<D: ValueType, F: ValueType> Default for FileSystem<D, F> {
    /// The same tree as [`FileSystem::new`]: an empty root directory.
    fn default() -> (r: Self)
        ensures
            r.wf(),
            r@.len() == 1,
            r@[0] == (NodeView::<D, F>::Directory {
                children: Map::<Seq<char>, int>::empty(),
                parent: Option::<(Seq<char>, int)>::None,
                value: D::spec_default(),
            }),
    {
        FileSystem::new()
    }
}

impl<D, F> FileSystem<D, F> {
    /// The payload cell of directory `id`.
    pub(crate) fn dir_data<'a>(&'a self, id: usize) -> (r: &'a Value<D>)
        requires
            self.wf(),
            is_dir(self@, id as int),
        ensures
            r@ == dir_value(self@, id as int),
    {
        proof {
            assert(self@[id as int] == raw_view(self.nodes@[id as int]));
        }
        match &self.nodes[id].payload {
            RawPayload::Directory(cell) => cell,
            RawPayload::File(_) => vstd::pervasive::unreached(),
        }
    }

    /// The payload cell of file `id`.
    pub(crate) fn file_data<'a>(&'a self, id: usize) -> (r: &'a Value<F>)
        requires
            self.wf(),
            is_file(self@, id as int),
        ensures
            r@ == file_value(self@, id as int),
    {
        proof {
            assert(self@[id as int] == raw_view(self.nodes@[id as int]));
        }
        match &self.nodes[id].payload {
            RawPayload::File(cell) => cell,
            RawPayload::Directory(_) => vstd::pervasive::unreached(),
        }
    }

    /// Looks `name` up among the children of directory `id`.
    fn find_child(&self, id: usize, name: &String) -> (r: Option<usize>)
        requires
            self.wf(),
            is_dir(self@, id as int),
        ensures
            match r {
                Some(j) => children_of(self@, id as int).contains_key(name@) && children_of(
                    self@,
                    id as int,
                )[name@] == j as int,
                None => !children_of(self@, id as int).contains_key(name@),
            },
    {
        proof {
            assert(self@[id as int] == raw_view(self.nodes@[id as int]));
        }
        let entries = &self.nodes[id].children;
        let ghost s = entries@;
        let mut k: usize = 0;
        while k < entries.len()
            invariant
                s == entries@,
                entries_distinct(s),
                children_of(self@, id as int) == entries_map(s),
                0 <= k <= s.len(),
                forall|m: int| 0 <= m < k ==> s[m].name@ != name@,
            decreases entries.len() - k,
        {
            if entries[k].name == *name {
                proof {
                    lemma_entries_map_index(s, k as int);
                }
                return Some(entries[k].id);
            }
            k += 1;
        }
        proof {
            lemma_entries_map_absent(s, name@);
        }
        None
    }
}

/// Whether the executable outcome `r` agrees with the specification
/// outcome `r1` against the tree `nodes`: same error, same absence, or a
/// handle for the same slot whose variant agrees with the tree.
pub open spec fn outcome_matches<D, F>(
    r: Result<Option<Node>, GetError>,
    r1: Result<Option<int>, GetError>,
    nodes: Seq<NodeView<D, F>>,
) -> bool {
    match (r, r1) {
        (Ok(Some(n)), Ok(Some(j))) => n.id() == j && n.matches_tree(nodes),
        (Ok(None), Ok(None)) => true,
        (Err(e), Err(e1)) => e == e1,
        _ => false,
    }
}

/// The slot an optional handle addresses.
pub open spec fn opt_node_id(cur: Option<Node>) -> Option<int> {
    match cur {
        Some(n) => Some(n.id()),
        None => None,
    }
}

impl<D: ValueType, F: ValueType> FileSystem<D, F> {
    /// Walks `comps` from directory `start`: the executable form of
    /// [`resolve`], one component per iteration.
    ///
    /// Missing segments are treated per `intermediate` / `endpoint`; a
    /// missing endpoint is created as `ty` when creation is asked for.
    pub(crate) fn resolve_from(
        &mut self,
        start: usize,
        comps: &Vec<Component>,
        intermediate: GetAction,
        endpoint: GetAction,
        ty: GetType,
    ) -> (r: Result<Option<Node>, GetError>)
        requires
            old(self).wf(),
            is_dir(old(self)@, start as int),
        ensures
            final(self).wf(),
            final(self)@ == resolve(
                old(self)@,
                Some(start as int),
                comps.deep_view(),
                intermediate,
                endpoint,
                ty,
            ).0,
            outcome_matches(
                r,
                resolve(
                    old(self)@,
                    Some(start as int),
                    comps.deep_view(),
                    intermediate,
                    endpoint,
                    ty,
                ).1,
                final(self)@,
            ),
    {
        let ghost c = comps.deep_view();
        let ghost orig = self@;
        proof {
            assert(c.len() == comps@.len());
            assert(c.skip(0) =~= c);
        }
        let mut cur: Option<Node> = Some(Node::Directory(Directory { id: start }));
        let mut i: usize = 0;
        while i < comps.len()
            invariant
                self.wf(),
                orig == old(self)@,
                c == comps.deep_view(),
                c.len() == comps@.len(),
                0 <= i <= comps@.len(),
                resolve(orig, Some(start as int), c, intermediate, endpoint, ty) == resolve(
                    self@,
                    opt_node_id(cur),
                    c.skip(i as int),
                    intermediate,
                    endpoint,
                    ty,
                ),
                (match cur {
                    Some(n) => n.matches_tree(self@),
                    None => true,
                }),
            decreases comps@.len() - i,
        {
            proof {
                assert(c.skip(i as int).len() > 0);
                assert(c.skip(i as int)[0] == c[i as int]);
                assert(c.skip(i as int).skip(1) =~= c.skip(i as int + 1));
                assert(c[i as int] == comps@[i as int].deep_view());
            }
            match cur {
                None => {
                    i += 1;
                },
                Some(Node::File(_)) => {
                    return Err(GetError::UnexpectedFile);
                },
                Some(Node::Directory(d)) => {
                    let id = d.id;
                    proof {
                        assert(is_dir(self@, id as int));
                        assert(self@[id as int] == raw_view(self.nodes@[id as int]));
                        assert(self@.len() == self.nodes@.len());
                    }
                    match &comps[i] {
                        Component::Prefix => {
                            return Err(GetError::UnexpectedPrefix);
                        },
                        Component::CurDir => {
                            i += 1;
                        },
                        Component::RootDir => {
                            match &self.nodes[id].parent {
                                None => {
                                    i += 1;
                                },
                                Some(_) => {
                                    return Err(GetError::UnexpectedRoot);
                                },
                            }
                        },
                        Component::ParentDir => {
                            match &self.nodes[id].parent {
                                Some(back) => {
                                    let parent = match back {
                                        ParentRef::Directory(_, dir) => Directory { id: dir.id },
                                    };
                                    proof {
                                        assert(node_parent(self@, id as int) == Some(back@));
                                        assert(is_dir(self@, parent.id()));
                                    }
                                    cur = Some(Node::Directory(parent));
                                    i += 1;
                                },
                                None => {
                                    return Err(GetError::UnexpectedOrphan);
                                },
                            }
                        },
                        Component::Normal(name) => {
                            match self.find_child(id, name) {
                                Some(j) => {
                                    proof {
                                        assert(children_of(self@, id as int).contains_key(
                                            name@,
                                        ));
                                        assert(0 <= (j as int) < self@.len());
                                        assert(node_parent(self@, j as int) == Some(
                                            (name@, id as int),
                                        ));
                                        assert(self@[j as int] == raw_view(self.nodes@[j as int]));
                                    }
                                    let node = match &self.nodes[j].payload {
                                        RawPayload::Directory(_) => Node::Directory(
                                            Directory { id: j },
                                        ),
                                        RawPayload::File(_) => Node::File(File { id: j }),
                                    };
                                    cur = Some(node);
                                    i += 1;
                                },
                                None => {
                                    let position = GetPosition::from_next(
                                        if i + 1 < comps.len() {
                                            Some(&comps[i + 1])
                                        } else {
                                            None
                                        },
                                    );
                                    let action = match position {
                                        GetPosition::Child => endpoint,
                                        GetPosition::Parent => intermediate,
                                    };
                                    match action {
                                        GetAction::ReturnNone => {
                                            cur = None;
                                            i += 1;
                                        },
                                        GetAction::ReturnError => {
                                            return Err(
                                                match position {
                                                    GetPosition::Child => GetError::EndpointNotFound,
                                                    GetPosition::Parent => GetError::IntermediateNotFound,
                                                },
                                            );
                                        },
                                        GetAction::CreateDefault => {
                                            let kind = match position {
                                                GetPosition::Child => ty,
                                                GetPosition::Parent => GetType::Directory,
                                            };
                                            let ghost pre = self@;
                                            let ghost pre_nodes = self.nodes@;
                                            let j = self.nodes.len();
                                            let back = ParentRef::Directory(
                                                name.clone(),
                                                Directory { id },
                                            );
                                            let child = match kind {
                                                GetType::Directory => RawNode {
                                                    children: Vec::new(),
                                                    parent: Some(back),
                                                    payload: RawPayload::Directory(
                                                        Value::from_option(None),
                                                    ),
                                                },
                                                GetType::File => RawNode {
                                                    children: Vec::new(),
                                                    parent: Some(back),
                                                    payload: RawPayload::File(
                                                        Value::from_option(None),
                                                    ),
                                                },
                                            };
                                            proof {
                                                assert(raw_view(child) == fresh_node::<D, F>(
                                                    kind,
                                                    name@,
                                                    id as int,
                                                )) by {
                                                    assert(entries_map(child.children@) =~= Map::<
                                                        Seq<char>,
                                                        int,
                                                    >::empty());
                                                }
                                                assert forall|m: int|
                                                    0 <= m < self.nodes@[id as int].children@.len()
                                                        implies self.nodes@[id as int].children@[m].name@
                                                        != name@ by {
                                                    lemma_entries_map_index(
                                                        self.nodes@[id as int].children@,
                                                        m,
                                                    );
                                                }
                                            }
                                            let ghost mid_entries = self.nodes@[id as int].children@;
                                            self.nodes.push(child);
                                            let entry = ChildEntry { name: name.clone(), id: j };
                                            let ghost entry_ghost = entry;
                                            self.nodes[id].children.push(entry);
                                            proof {
                                                let grown = crate::model::add_child(
                                                    pre,
                                                    id as int,
                                                    name@,
                                                    fresh_node::<D, F>(kind, name@, id as int),
                                                );
                                                assert(self.nodes@[id as int].children@
                                                    == mid_entries.push(entry_ghost));
                                                lemma_entries_map_push(mid_entries, entry_ghost);
                                                assert(self@[id as int] == raw_view(
                                                    self.nodes@[id as int],
                                                ));
                                                assert(self@[j as int] == raw_view(
                                                    self.nodes@[j as int],
                                                ));
                                                assert(self@ =~~= grown);
                                                lemma_add_child_wf::<D, F>(
                                                    pre,
                                                    id as int,
                                                    name@,
                                                    kind,
                                                );
                                                assert(self.inv()) by {
                                                    assert(forall|m: int|
                                                        0 <= m < pre_nodes.len() && m != id as int
                                                            ==> self.nodes@[m] == pre_nodes[m]);
                                                    assert(entries_distinct(
                                                        self.nodes@[id as int].children@,
                                                    ));
                                                    assert(raw_inv(self.nodes@[j as int]));
                                                    assert(raw_inv(self.nodes@[id as int]));
                                                }
                                            }
                                            cur = Some(
                                                match kind {
                                                    GetType::Directory => Node::Directory(
                                                        Directory { id: j },
                                                    ),
                                                    GetType::File => Node::File(File { id: j }),
                                                },
                                            );
                                            i += 1;
                                        },
                                    }
                                },
                            }
                        },
                    }
                },
            }
        }
        proof {
            assert(c.skip(comps@.len() as int) =~= Seq::<crate::path::ComponentView>::empty());
        }
        Ok(cur)
    }
}

/// The number of entries of `s` whose node matches `ty`.
spec fn kind_count<D, F>(nodes: Seq<NodeView<D, F>>, s: Seq<ChildEntry>, ty: GetType) -> nat
    decreases s.len(),
{
    if s.len() == 0 {
        0
    } else {
        kind_count(nodes, s.drop_last(), ty) + (if crate::model::kind_matches(
            nodes,
            s.last().id as int,
            ty,
        ) {
            1nat
        } else {
            0nat
        })
    }
}

proof fn lemma_kind_count_set<D, F>(
    nodes: Seq<NodeView<D, F>>,
    s: Seq<ChildEntry>,
    ty: GetType,
)
    requires
        entries_distinct(s),
    ensures
        kind_count(nodes, s, ty) == entries_kind_set(nodes, s, ty).len(),
        entries_kind_set(nodes, s, ty).finite(),
    decreases s.len(),
{
    broadcast use vstd::set::axiom_set_insert_len;

    if s.len() == 0 {
        assert(entries_kind_set(nodes, s, ty) =~= Set::<Seq<char>>::empty());
    } else {
        let s0 = s.drop_last();
        let e = s.last();
        assert(entries_distinct(s0)) by {
            assert(forall|a: int, b: int|
                0 <= a < b < s.len() - 1 ==> s0[a] == s[a] && s0[b] == s[b]);
        }
        lemma_kind_count_set(nodes, s0, ty);
        assert(forall|m: int| 0 <= m < s.len() - 1 ==> s0[m] == s[m]);
        if crate::model::kind_matches(nodes, e.id as int, ty) {
            assert(entries_kind_set(nodes, s, ty) =~= entries_kind_set(nodes, s0, ty).insert(
                e.name@,
            ));
            assert(!entries_kind_set(nodes, s0, ty).contains(e.name@));
        } else {
            assert(entries_kind_set(nodes, s, ty) =~= entries_kind_set(nodes, s0, ty));
        }
    }
}

/// The names of the entries of `s` whose node matches `ty`.
spec fn entries_kind_set<D, F>(nodes: Seq<NodeView<D, F>>, s: Seq<ChildEntry>, ty: GetType) -> Set<
    Seq<char>,
> {
    Set::new(
        |n: Seq<char>|
            exists|m: int|
                0 <= m < s.len() && s[m].name@ == n && crate::model::kind_matches(
                    nodes,
                    s[m].id as int,
                    ty,
                ),
    )
}

proof fn lemma_entries_kind_set_is_filter<D, F>(
    nodes: Seq<NodeView<D, F>>,
    i: int,
    s: Seq<ChildEntry>,
    ty: GetType,
)
    requires
        entries_distinct(s),
        children_of(nodes, i) == entries_map(s),
    ensures
        entries_kind_set(nodes, s, ty) =~= crate::model::children_of_kind(nodes, i, ty),
{
    assert forall|n: Seq<char>| entries_kind_set(nodes, s, ty).contains(n)
        implies crate::model::children_of_kind(nodes, i, ty).contains(n) by {
        let m = choose|m: int|
            0 <= m < s.len() && s[m].name@ == n && crate::model::kind_matches(
                nodes,
                s[m].id as int,
                ty,
            );
        lemma_entries_map_index(s, m);
    }
    assert forall|n: Seq<char>| crate::model::children_of_kind(nodes, i, ty).contains(n)
        implies entries_kind_set(nodes, s, ty).contains(n) by {
        assert(entries_map(s).contains_key(n));
        lemma_entries_map_key_index(s, n);
        let m = choose|m: int| 0 <= m < s.len() && s[m].name@ == n;
        lemma_entries_map_index(s, m);
    }
}

proof fn lemma_entries_map_key_index(s: Seq<ChildEntry>, name: Seq<char>)
    requires
        entries_map(s).contains_key(name),
    ensures
        exists|m: int| 0 <= m < s.len() && s[m].name@ == name,
    decreases s.len(),
{
    if s.len() > 0 {
        if s.last().name@ == name {
            assert(s[s.len() - 1].name@ == name);
        } else {
            lemma_entries_map_key_index(s.drop_last(), name);
            let m = choose|m: int| 0 <= m < s.len() - 1 && s.drop_last()[m].name@ == name;
            assert(s[m].name@ == name);
        }
    }
}

impl<D, F> FileSystem<D, F> {
    /// The number of children of directory `id`.
    pub(crate) fn count_children(&self, id: usize) -> (r: usize)
        requires
            self.wf(),
            is_dir(self@, id as int),
        ensures
            r as nat == children_of(self@, id as int).dom().len(),
    {
        proof {
            assert(self@[id as int] == raw_view(self.nodes@[id as int]));
            lemma_entries_map_len(self.nodes@[id as int].children@);
        }
        self.nodes[id].children.len()
    }

    /// The number of children of directory `id` whose node matches `ty`.
    pub(crate) fn count_children_of_kind(&self, id: usize, ty: GetType) -> (r: usize)
        requires
            self.wf(),
            is_dir(self@, id as int),
        ensures
            r as nat == crate::model::children_of_kind(self@, id as int, ty).len(),
    {
        proof {
            assert(self@[id as int] == raw_view(self.nodes@[id as int]));
        }
        let entries = &self.nodes[id].children;
        let ghost s = entries@;
        let mut count: usize = 0;
        let mut k: usize = 0;
        proof {
            assert(s.take(0) =~= Seq::<ChildEntry>::empty());
        }
        while k < entries.len()
            invariant
                self.wf(),
                is_dir(self@, id as int),
                s == entries@,
                s == self.nodes@[id as int].children@,
                self@[id as int] == raw_view(self.nodes@[id as int]),
                0 <= k <= s.len(),
                count <= k,
                count as nat == kind_count(self@, s.take(k as int), ty),
            decreases s.len() - k,
        {
            let e_id = entries[k].id;
            let matched = if e_id < self.nodes.len() {
                proof {
                    assert(self@[e_id as int] == raw_view(self.nodes@[e_id as int]));
                }
                match (&self.nodes[e_id].payload, ty) {
                    (RawPayload::Directory(_), GetType::Directory) => true,
                    (RawPayload::File(_), GetType::File) => true,
                    _ => false,
                }
            } else {
                false
            };
            proof {
                assert(self@.len() == self.nodes@.len());
                assert(matched == crate::model::kind_matches(self@, s[k as int].id as int, ty));
                assert(s.take(k as int + 1).drop_last() =~= s.take(k as int));
                assert(s.take(k as int + 1).last() == s[k as int]);
            }
            if matched {
                count += 1;
            }
            k += 1;
        }
        proof {
            assert(s.take(s.len() as int) =~= s);
            lemma_kind_count_set(self@, s, ty);
            lemma_entries_kind_set_is_filter(self@, id as int, s, ty);
        }
        count
    }

    /// The absolute path of node `id`, reconstructed by following parent
    /// edges up to the root.
    pub(crate) fn path_of(&self, id: usize) -> (r: String)
        requires
            self.wf(),
            (id as int) < self@.len(),
        ensures
            r@ == crate::model::node_path(self@, id as int),
        decreases id,
    {
        proof {
            assert(self@[id as int] == raw_view(self.nodes@[id as int]));
            reveal_strlit("/");
        }
        match &self.nodes[id].parent {
            None => {
                let mut s = String::new();
                s.append("/");
                proof {
                    assert(s@ =~= seq!['/']);
                }
                s
            },
            Some(ParentRef::Directory(name, dir)) => {
                let pid = dir.id;
                proof {
                    assert(node_parent(self@, id as int) == Some((name@, pid as int)));
                    assert(0 <= (pid as int) < (id as int) && is_dir(self@, pid as int));
                    assert(self@[pid as int] == raw_view(self.nodes@[pid as int]));
                }
                match &self.nodes[pid].parent {
                    None => {
                        let mut s = String::new();
                        s.append("/");
                        s.append(name.as_str());
                        proof {
                            assert(s@ =~= seq!['/'] + name@);
                        }
                        s
                    },
                    Some(_) => {
                        let mut s = self.path_of(pid);
                        s.append("/");
                        s.append(name.as_str());
                        proof {
                            assert(s@ =~= crate::model::node_path(self@, pid as int) + seq!['/']
                                + name@);
                        }
                        s
                    },
                }
            },
        }
    }
}

impl<D, F> FileSystem<D, F> {
    /// Replaces the payload of directory `id`, returning the previous
    /// payload.  No other node changes.
    pub(crate) fn set_dir_data(&mut self, id: usize, value: D) -> (r: D)
        requires
            old(self).wf(),
            is_dir(old(self)@, id as int),
        ensures
            final(self).wf(),
            final(self)@ == old(self)@.update(
                id as int,
                crate::model::with_dir_value(old(self)@[id as int], value),
            ),
            r == dir_value(old(self)@, id as int),
    {
        proof {
            assert(self@[id as int] == raw_view(self.nodes@[id as int]));
        }
        let ghost pre = self@;
        let ghost pre_nodes = self.nodes@;
        let mut taken = RawPayload::Directory(Value::new(value));
        core::mem::swap(&mut self.nodes[id].payload, &mut taken);
        proof {
            assert(self@[id as int] == raw_view(self.nodes@[id as int]));
            assert(forall|m: int|
                0 <= m < pre_nodes.len() && m != id as int ==> self.nodes@[m] == pre_nodes[m]);
            assert(self@ =~~= pre.update(
                id as int,
                crate::model::with_dir_value(pre[id as int], value),
            ));
            assert(self.inv()) by {
                assert(forall|m: int|
                    0 <= m < self.nodes@.len() ==> raw_inv(#[trigger] self.nodes@[m]));
            }
            assert(wf_nodes(self@)) by {
                shape_update_wf(pre, self@);
            }
        }
        match taken {
            RawPayload::Directory(cell) => cell.into_inner(),
            RawPayload::File(_) => vstd::pervasive::unreached(),
        }
    }

    /// Replaces the payload of file `id`, returning the previous payload.
    /// No other node changes.
    pub(crate) fn set_file_data(&mut self, id: usize, value: F) -> (r: F)
        requires
            old(self).wf(),
            is_file(old(self)@, id as int),
        ensures
            final(self).wf(),
            final(self)@ == old(self)@.update(
                id as int,
                crate::model::with_file_value(old(self)@[id as int], value),
            ),
            r == file_value(old(self)@, id as int),
    {
        proof {
            assert(self@[id as int] == raw_view(self.nodes@[id as int]));
        }
        let ghost pre = self@;
        let ghost pre_nodes = self.nodes@;
        let mut taken = RawPayload::File(Value::new(value));
        core::mem::swap(&mut self.nodes[id].payload, &mut taken);
        proof {
            assert(self@[id as int] == raw_view(self.nodes@[id as int]));
            assert(forall|m: int|
                0 <= m < pre_nodes.len() && m != id as int ==> self.nodes@[m] == pre_nodes[m]);
            assert(self@ =~~= pre.update(
                id as int,
                crate::model::with_file_value(pre[id as int], value),
            ));
            assert(self.inv()) by {
                assert(forall|m: int|
                    0 <= m < self.nodes@.len() ==> raw_inv(#[trigger] self.nodes@[m]));
            }
            assert(wf_nodes(self@)) by {
                shape_update_wf(pre, self@);
            }
        }
        match taken {
            RawPayload::File(cell) => cell.into_inner(),
            RawPayload::Directory(_) => vstd::pervasive::unreached(),
        }
    }
}

/// A payload replacement keeps the tree's shape, hence its
/// well-formedness.
proof fn shape_update_wf<D, F>(nodes: Seq<NodeView<D, F>>, nodes1: Seq<NodeView<D, F>>)
    requires
        wf_nodes(nodes),
        nodes1.len() == nodes.len(),
        forall|i: int|
            0 <= i < nodes.len() ==> #[trigger] node_parent(nodes1, i) == node_parent(nodes, i),
        forall|i: int|
            0 <= i < nodes.len() ==> #[trigger] children_of(nodes1, i) == children_of(nodes, i),
        forall|i: int|
            0 <= i < nodes.len() ==> ((#[trigger] nodes1[i]) is Directory <==> nodes[i]
                is Directory),
    ensures
        wf_nodes(nodes1),
{
    crate::model::lemma_same_shape_wf(nodes, nodes1);
}

} // verus!
