//! The contents of a scene: its nodes (each with an optional parent), the meshes attached to
//! them and its animations, each table under names that are unique within it.
use vstd::prelude::*;

use crate::nodes::{build_hierarchy, children_of, first_seen, group_meshes_by_node, positions_of};

verus! {

/// A node: its name and the index of its parent node (none for a root).
pub struct NodeEntry {
    pub name: String,
    pub parent: Option<u32>,
}

/// A mesh: its name, the index of the node it hangs from and the model it shows.
pub struct MeshEntry {
    pub name: String,
    pub node: u32,
    pub model: u64,
}

/// Why a scene refused an addition.
#[derive(Copy, Clone, PartialEq, Eq, Structural, Debug)]
pub enum SceneError {
    /// There is already a node with this name.
    DuplicateNode,
    /// There is already a mesh with this name.
    DuplicateMesh,
    /// There is already an animation with this name.
    DuplicateAnim,
    /// The table is full: its indices would not fit in 32 bits.
    Full,
}

/// The nodes, meshes and animations of a scene.
pub struct SceneRegistry {
    pub nodes: Vec<NodeEntry>,
    pub meshes: Vec<MeshEntry>,
    pub anims: Vec<String>,
}

/// The names of `nodes`.
pub open spec fn node_names(nodes: Seq<NodeEntry>) -> Seq<Seq<char>> {
    nodes.map_values(|n: NodeEntry| n.name@)
}

/// The parent of each node.
pub open spec fn node_parents(nodes: Seq<NodeEntry>) -> Seq<Option<u32>> {
    nodes.map_values(|n: NodeEntry| n.parent)
}

/// The node of each mesh.
pub open spec fn mesh_node_seq(meshes: Seq<MeshEntry>) -> Seq<u32> {
    meshes.map_values(|m: MeshEntry| m.node)
}

/// The names of `meshes`.
pub open spec fn mesh_names(meshes: Seq<MeshEntry>) -> Seq<Seq<char>> {
    meshes.map_values(|m: MeshEntry| m.name@)
}

/// The names of `anims`.
pub open spec fn anim_names(anims: Seq<String>) -> Seq<Seq<char>> {
    anims.map_values(|a: String| a@)
}

/// The message of `e`.
pub open spec fn scene_error_message(e: SceneError) -> Seq<char> {
    match e {
        SceneError::DuplicateNode => "there is already a node with this name, and duplicates are disallowed"@,
        SceneError::DuplicateMesh => "there is already a mesh with this name, and duplicates are disallowed"@,
        SceneError::DuplicateAnim => "there is already an animation with this name, and duplicates are disallowed"@,
        SceneError::Full => "the scene cannot hold more entries of this kind"@,
    }
}

impl SceneError {
    /// A message describing the error.
    pub fn message(&self) -> (s: String)
        ensures
            s@ == scene_error_message(*self),
    {
        match self {
            SceneError::DuplicateNode => String::from_str(
                "there is already a node with this name, and duplicates are disallowed",
            ),
            SceneError::DuplicateMesh => String::from_str(
                "there is already a mesh with this name, and duplicates are disallowed",
            ),
            SceneError::DuplicateAnim => String::from_str(
                "there is already an animation with this name, and duplicates are disallowed",
            ),
            SceneError::Full => String::from_str("the scene cannot hold more entries of this kind"),
        }
    }
}

/// Whether `name` equals one of `names`.
fn listed(names: &Vec<String>, name: &String) -> (r: bool)
    ensures
        r == anim_names(names@).contains(name@),
{
    let ghost views = anim_names(names@);
    let mut k: usize = 0;
    while k < names.len()
        invariant
            k <= names@.len(),
            views == anim_names(names@),
            forall|j: int| 0 <= j < k ==> views[j] != name@,
        decreases names@.len() - k,
    {
        if names[k] == *name {
            assert(views[k as int] == name@);
            return true;
        }
        k = k + 1;
    }
    proof {
        if views.contains(name@) {
            let j = choose|j: int| 0 <= j < views.len() && views[j] == name@;
            assert(views[j] != name@);
        }
    }
    false
}

impl SceneRegistry {
    /// Names are unique within each table, every parent is an earlier node, and every mesh hangs
    /// from an existing node.
    pub open spec fn wf(&self) -> bool {
        &&& node_names(self.nodes@).no_duplicates()
        &&& mesh_names(self.meshes@).no_duplicates()
        &&& anim_names(self.anims@).no_duplicates()
        &&& forall|i: int| 0 <= i < self.nodes@.len() ==> ((#[trigger] self.nodes@[i]).parent matches Some(p) ==> p < i)
        &&& forall|i: int| 0 <= i < self.meshes@.len() ==> (#[trigger] self.meshes@[i]).node < self.nodes@.len()
        &&& self.nodes@.len() <= u32::MAX
        &&& self.meshes@.len() <= u32::MAX
        &&& self.anims@.len() <= u32::MAX
    }

    /// An empty scene.
    pub fn new() -> (s: SceneRegistry)
        ensures
            s.wf(),
            s.nodes@.len() == 0,
            s.meshes@.len() == 0,
            s.anims@.len() == 0,
    {
        let s = SceneRegistry { nodes: Vec::new(), meshes: Vec::new(), anims: Vec::new() };
        assert(node_names(s.nodes@) =~= Seq::<Seq<char>>::empty());
        assert(mesh_names(s.meshes@) =~= Seq::<Seq<char>>::empty());
        assert(anim_names(s.anims@) =~= Seq::<Seq<char>>::empty());
        s
    }

    fn has_node(&self, name: &String) -> (r: bool)
        ensures
            r == node_names(self.nodes@).contains(name@),
    {
        let ghost views = node_names(self.nodes@);
        let mut k: usize = 0;
        while k < self.nodes.len()
            invariant
                k <= self.nodes@.len(),
                views == node_names(self.nodes@),
                forall|j: int| 0 <= j < k ==> views[j] != name@,
            decreases self.nodes@.len() - k,
        {
            if self.nodes[k].name == *name {
                assert(views[k as int] == name@);
                return true;
            }
            k = k + 1;
        }
        proof {
            if views.contains(name@) {
                let j = choose|j: int| 0 <= j < views.len() && views[j] == name@;
                assert(views[j] != name@);
            }
        }
        false
    }

    fn has_mesh(&self, name: &String) -> (r: bool)
        ensures
            r == mesh_names(self.meshes@).contains(name@),
    {
        let ghost views = mesh_names(self.meshes@);
        let mut k: usize = 0;
        while k < self.meshes.len()
            invariant
                k <= self.meshes@.len(),
                views == mesh_names(self.meshes@),
                forall|j: int| 0 <= j < k ==> views[j] != name@,
            decreases self.meshes@.len() - k,
        {
            if self.meshes[k].name == *name {
                assert(views[k as int] == name@);
                return true;
            }
            k = k + 1;
        }
        proof {
            if views.contains(name@) {
                let j = choose|j: int| 0 <= j < views.len() && views[j] == name@;
                assert(views[j] != name@);
            }
        }
        false
    }

    /// Adds a node named `name` under `parent` (a root when `None`); returns its index. Refused,
    /// changing nothing, when a node already has this name.
    fn add_node(&mut self, name: String, parent: Option<u32>) -> (r: Result<u32, SceneError>)
        requires
            old(self).wf(),
            parent matches Some(p) ==> p < old(self).nodes@.len(),
        ensures
            final(self).wf(),
            added_node(*old(self), *final(self), name@, parent, r),
    {
        if self.has_node(&name) {
            return Err(SceneError::DuplicateNode);
        }
        if self.nodes.len() >= 0xffff_ffff {
            return Err(SceneError::Full);
        }
        let index = self.nodes.len() as u32;
        let ghost before = self.nodes@;
        self.nodes.push(NodeEntry { name, parent });
        proof {
            assert(self.nodes@.drop_last() =~= before);
            assert(node_names(self.nodes@) =~= node_names(before).push(self.nodes@.last().name@));
            assert forall|i: int| 0 <= i < self.nodes@.len() implies ((#[trigger] self.nodes@[i]).parent matches Some(
                p,
            ) ==> p < i) by {
                if i < before.len() {
                    assert(self.nodes@[i] == before[i]);
                }
            }
        }
        Ok(index)
    }

    /// Adds a root node named `name`; returns its index. Refused, changing nothing, when a node
    /// already has this name.
    pub fn create_root_node(&mut self, name: String) -> (r: Result<u32, SceneError>)
        requires
            old(self).wf(),
        ensures
            final(self).wf(),
            added_node(*old(self), *final(self), name@, None, r),
    {
        self.add_node(name, None)
    }

    /// Adds a node named `name` under node `parent`; returns its index. Refused, changing
    /// nothing, when a node already has this name.
    pub fn create_child_node(&mut self, parent: u32, name: String) -> (r: Result<u32, SceneError>)
        requires
            old(self).wf(),
            parent < old(self).nodes@.len(),
        ensures
            final(self).wf(),
            added_node(*old(self), *final(self), name@, Some(parent), r),
    {
        self.add_node(name, Some(parent))
    }

    /// Attaches a mesh named `name`, showing `model`, to node `node`; returns its index. Refused,
    /// changing nothing, when a mesh already has this name.
    pub fn add_model(&mut self, node: u32, name: String, model: u64) -> (r: Result<u32, SceneError>)
        requires
            old(self).wf(),
            node < old(self).nodes@.len(),
        ensures
            final(self).wf(),
            final(self).nodes@ == old(self).nodes@,
            final(self).anims@ == old(self).anims@,
            mesh_names(old(self).meshes@).contains(name@) ==> r == Err::<u32, _>(SceneError::DuplicateMesh),
            !mesh_names(old(self).meshes@).contains(name@) && old(self).meshes@.len() < u32::MAX ==> r == Ok::<
                _,
                SceneError,
            >(old(self).meshes@.len() as u32),
            !mesh_names(old(self).meshes@).contains(name@) && old(self).meshes@.len() >= u32::MAX ==> r == Err::<
                u32,
                _,
            >(SceneError::Full),
            r is Err ==> final(self).meshes@ == old(self).meshes@,
            r is Ok ==> final(self).meshes@.len() == old(self).meshes@.len() + 1 && final(self).meshes@.drop_last()
                == old(self).meshes@ && final(self).meshes@.last().name@ == name@ && final(self).meshes@.last().node
                == node && final(self).meshes@.last().model == model,
    {
        if self.has_mesh(&name) {
            return Err(SceneError::DuplicateMesh);
        }
        if self.meshes.len() >= 0xffff_ffff {
            return Err(SceneError::Full);
        }
        let index = self.meshes.len() as u32;
        let ghost before = self.meshes@;
        self.meshes.push(MeshEntry { name, node, model });
        proof {
            assert(self.meshes@.drop_last() =~= before);
            assert(mesh_names(self.meshes@) =~= mesh_names(before).push(self.meshes@.last().name@));
            assert forall|i: int| 0 <= i < self.meshes@.len() implies (#[trigger] self.meshes@[i]).node
                < self.nodes@.len() by {
                if i < before.len() {
                    assert(self.meshes@[i] == before[i]);
                }
            }
        }
        Ok(index)
    }

    /// Adds an animation named `name`; returns its index. Refused, changing nothing, when an
    /// animation already has this name.
    pub fn create_anim(&mut self, name: String) -> (r: Result<u32, SceneError>)
        requires
            old(self).wf(),
        ensures
            final(self).wf(),
            final(self).nodes@ == old(self).nodes@,
            final(self).meshes@ == old(self).meshes@,
            anim_names(old(self).anims@).contains(name@) ==> r == Err::<u32, _>(SceneError::DuplicateAnim),
            !anim_names(old(self).anims@).contains(name@) && old(self).anims@.len() < u32::MAX ==> r == Ok::<
                _,
                SceneError,
            >(old(self).anims@.len() as u32),
            !anim_names(old(self).anims@).contains(name@) && old(self).anims@.len() >= u32::MAX ==> r == Err::<
                u32,
                _,
            >(SceneError::Full),
            r is Err ==> final(self).anims@ == old(self).anims@,
            r is Ok ==> anim_names(final(self).anims@) == anim_names(old(self).anims@).push(name@),
    {
        if listed(&self.anims, &name) {
            return Err(SceneError::DuplicateAnim);
        }
        if self.anims.len() >= 0xffff_ffff {
            return Err(SceneError::Full);
        }
        let index = self.anims.len() as u32;
        let ghost before = self.anims@;
        self.anims.push(name);
        proof {
            assert(anim_names(self.anims@) =~= anim_names(before).push(self.anims@.last()@));
        }
        Ok(index)
    }

    /// The exported node structure: each node's children and the roots, both in node order.
    pub fn node_tree(&self) -> (r: (Vec<Vec<u32>>, Vec<u32>))
        requires
            self.wf(),
        ensures
            r.0@.len() == self.nodes@.len(),
            forall|p: int|
                0 <= p < self.nodes@.len() ==> (#[trigger] r.0@[p])@ == children_of(
                    node_parents(self.nodes@),
                    self.nodes@.len() as int,
                    Some(p as u32),
                ),
            r.1@ == children_of(node_parents(self.nodes@), self.nodes@.len() as int, None),
    {
        let ps = self.parents();
        assert(ps@ =~= node_parents(self.nodes@));
        assert forall|i: int| 0 <= i < ps@.len() implies (#[trigger] ps@[i] matches Some(p) ==> p < ps@.len()) by {
            assert(ps@[i] == self.nodes@[i].parent);
        }
        build_hierarchy(&ps)
    }

    /// The meshes grouped by node: one group per node that has meshes, in order of its first
    /// mesh, listing its meshes in order.
    pub fn mesh_groups(&self) -> (groups: Vec<(u32, Vec<usize>)>)
        ensures
            groups@.len() == first_seen(mesh_node_seq(self.meshes@), self.meshes@.len() as int).len(),
            forall|g: int|
                0 <= g < groups@.len() ==> (#[trigger] groups@[g]).0 == first_seen(
                    mesh_node_seq(self.meshes@),
                    self.meshes@.len() as int,
                )[g] && groups@[g].1@ == positions_of(
                    mesh_node_seq(self.meshes@),
                    self.meshes@.len() as int,
                    groups@[g].0,
                ),
    {
        let ns = self.mesh_nodes();
        assert(ns@ =~= mesh_node_seq(self.meshes@));
        group_meshes_by_node(&ns)
    }

    /// The parent of every node, by node index.
    pub fn parents(&self) -> (ps: Vec<Option<u32>>)
        ensures
            ps@.len() == self.nodes@.len(),
            forall|i: int| 0 <= i < ps@.len() ==> #[trigger] ps@[i] == self.nodes@[i].parent,
    {
        let mut ps: Vec<Option<u32>> = Vec::new();
        let mut k: usize = 0;
        while k < self.nodes.len()
            invariant
                k <= self.nodes@.len(),
                ps@.len() == k,
                forall|i: int| 0 <= i < k ==> #[trigger] ps@[i] == self.nodes@[i].parent,
            decreases self.nodes@.len() - k,
        {
            ps.push(self.nodes[k].parent);
            k = k + 1;
        }
        ps
    }

    /// The node of every mesh, by mesh index.
    pub fn mesh_nodes(&self) -> (ns: Vec<u32>)
        ensures
            ns@.len() == self.meshes@.len(),
            forall|i: int| 0 <= i < ns@.len() ==> #[trigger] ns@[i] == self.meshes@[i].node,
    {
        let mut ns: Vec<u32> = Vec::new();
        let mut k: usize = 0;
        while k < self.meshes.len()
            invariant
                k <= self.meshes@.len(),
                ns@.len() == k,
                forall|i: int| 0 <= i < k ==> #[trigger] ns@[i] == self.meshes@[i].node,
            decreases self.meshes@.len() - k,
        {
            ns.push(self.meshes[k].node);
            k = k + 1;
        }
        ns
    }
}

/// `b` is `a` after an attempt to add a node named `name` under `parent`, answered `r`: refused
/// with `DuplicateNode` exactly when the name is taken, otherwise (unless the table is full)
/// added at the end with the next index; meshes and animations unchanged either way.
pub open spec fn added_node(
    a: SceneRegistry,
    b: SceneRegistry,
    name: Seq<char>,
    parent: Option<u32>,
    r: Result<u32, SceneError>,
) -> bool {
    &&& b.meshes@ == a.meshes@
    &&& b.anims@ == a.anims@
    &&& node_names(a.nodes@).contains(name) ==> r == Err::<u32, _>(SceneError::DuplicateNode)
    &&& !node_names(a.nodes@).contains(name) && a.nodes@.len() < u32::MAX ==> r == Ok::<_, SceneError>(
        a.nodes@.len() as u32,
    )
    &&& !node_names(a.nodes@).contains(name) && a.nodes@.len() >= u32::MAX ==> r == Err::<u32, _>(SceneError::Full)
    &&& r is Err ==> b.nodes@ == a.nodes@
    &&& r is Ok ==> {
        &&& b.nodes@.len() == a.nodes@.len() + 1
        &&& b.nodes@.drop_last() == a.nodes@
        &&& b.nodes@.last().name@ == name
        &&& b.nodes@.last().parent == parent
    }
}

/// Once a node name is taken, adding another node under that name is refused and leaves the
/// nodes as they were.
pub proof fn lemma_node_names_stay_unique(
    a: SceneRegistry,
    b: SceneRegistry,
    c: SceneRegistry,
    name: Seq<char>,
    p1: Option<u32>,
    p2: Option<u32>,
    r1: Result<u32, SceneError>,
    r2: Result<u32, SceneError>,
)
    requires
        added_node(a, b, name, p1, r1),
        r1 is Ok,
        added_node(b, c, name, p2, r2),
    ensures
        r2 == Err::<u32, _>(SceneError::DuplicateNode),
        c.nodes@ == b.nodes@,
        node_names(c.nodes@).contains(name),
{
    assert(node_names(b.nodes@)[b.nodes@.len() - 1] == name);
}

} // verus!
