//! Which parts of a scene a render shows: nodes and meshes picked by name, whole subtrees at a
//! time, and the node hierarchy rebuilt from parent links.
use vstd::prelude::*;

verus! {

/// Whether `name` is present and equal to one of `list`.
pub open spec fn name_listed(name: Option<Seq<char>>, list: Seq<Seq<char>>) -> bool {
    match name {
        Some(n) => list.contains(n),
        None => false,
    }
}

/// The names held by a list of strings.
pub open spec fn names_of(list: Seq<String>) -> Seq<Seq<char>> {
    list.map_values(|s: String| s@)
}

/// The view of an optional name.
pub open spec fn opt_view(name: Option<&str>) -> Option<Seq<char>> {
    match name {
        Some(n) => Some(n@),
        None => None,
    }
}

/// Whether `name` is present and equal to one of the names in `list`.
pub fn name_matches(name: Option<&str>, list: &Vec<String>) -> (r: bool)
    ensures
        r == name_listed(opt_view(name), names_of(list@)),
{
    let ghost names = names_of(list@);
    match name {
        None => false,
        Some(n) => {
            let wanted = String::from_str(n);
            let mut k: usize = 0;
            while k < list.len()
                invariant
                    k <= list@.len(),
                    names == names_of(list@),
                    wanted@ == n@,
                    name == Some(n),
                    forall|j: int| 0 <= j < k ==> names[j] != n@,
                decreases list@.len() - k,
            {
                if list[k] == wanted {
                    assert(names[k as int] == n@);
                    assert(names.contains(n@));
                    return true;
                }
                k = k + 1;
            }
            proof {
                if names.contains(n@) {
                    let j = choose|j: int| 0 <= j < names.len() && names[j] == n@;
                    assert(names[j] != n@);
                }
            }
            false
        },
    }
}

/// Whether a node is included, excluded and visible, given its parent's state, its own name and
/// its mesh's name: a name on the `shown` list includes the node's whole subtree, one on the
/// `hidden` list excludes it; with no `shown` list at all, the roots start included. Exclusion
/// wins over inclusion.
pub struct Visibility {
    pub included: bool,
    pub excluded: bool,
    pub visible: bool,
}

/// The visibility of a node whose parent is `parent_included` / `parent_excluded`, named
/// `node_name`, with a mesh named `mesh_name`.
pub open spec fn visibility_spec(
    parent_included: bool,
    parent_excluded: bool,
    node_name: Option<Seq<char>>,
    mesh_name: Option<Seq<char>>,
    shown: Seq<Seq<char>>,
    hidden: Seq<Seq<char>>,
) -> Visibility {
    let included = parent_included || name_listed(node_name, shown) || name_listed(mesh_name, shown);
    let excluded = parent_excluded || name_listed(node_name, hidden) || name_listed(mesh_name, hidden);
    Visibility { included, excluded, visible: included && !excluded }
}

/// The visibility of a node: included when its parent is or its own or its mesh's name is on
/// `shown`, excluded when its parent is or its own or its mesh's name is on `hidden`, visible when
/// included and not excluded.
pub fn node_visibility(
    parent_included: bool,
    parent_excluded: bool,
    node_name: Option<&str>,
    mesh_name: Option<&str>,
    shown: &Vec<String>,
    hidden: &Vec<String>,
) -> (v: Visibility)
    ensures
        v == visibility_spec(
            parent_included,
            parent_excluded,
            opt_view(node_name),
            opt_view(mesh_name),
            names_of(shown@),
            names_of(hidden@),
        ),
{
    let included = parent_included || name_matches(node_name, shown) || name_matches(mesh_name, shown);
    let excluded = parent_excluded || name_matches(node_name, hidden) || name_matches(mesh_name, hidden);
    Visibility { included, excluded, visible: included && !excluded }
}

/// A node under an excluded parent is excluded and hidden, whatever the lists say; a node under
/// an included parent is included, and visible unless it or an ancestor is excluded.
pub proof fn lemma_subtree_visibility(
    parent_included: bool,
    parent_excluded: bool,
    node_name: Option<Seq<char>>,
    mesh_name: Option<Seq<char>>,
    shown: Seq<Seq<char>>,
    hidden: Seq<Seq<char>>,
)
    ensures
        parent_excluded ==> visibility_spec(parent_included, parent_excluded, node_name, mesh_name, shown, hidden).excluded
            && !visibility_spec(parent_included, parent_excluded, node_name, mesh_name, shown, hidden).visible,
        parent_included ==> visibility_spec(parent_included, parent_excluded, node_name, mesh_name, shown, hidden).included,
        name_listed(node_name, hidden) ==> !visibility_spec(
            parent_included,
            parent_excluded,
            node_name,
            mesh_name,
            shown,
            hidden,
        ).visible,
{
}

/// Whether the roots of a scene start included: exactly when there is no `shown` list, so that
/// `hidden` alone works as a deny-list.
pub fn roots_included(shown: &Vec<String>) -> (b: bool)
    ensures
        b == (shown@.len() == 0),
{
    shown.len() == 0
}

/// Without a `shown` list, a root is visible exactly when neither its name nor its mesh's name
/// is on the `hidden` list.
pub proof fn lemma_deny_list_only(node_name: Option<Seq<char>>, mesh_name: Option<Seq<char>>, hidden: Seq<Seq<char>>)
    ensures
        visibility_spec(true, false, node_name, mesh_name, Seq::empty(), hidden).visible == !(name_listed(
            node_name,
            hidden,
        ) || name_listed(mesh_name, hidden)),
{
}

/// A node of a glTF document as the scene walk reads it: its name, its mesh and its children.
pub struct WalkNode {
    pub name: Option<String>,
    pub mesh: Option<u32>,
    pub children: Vec<u32>,
}

/// A node reached by the scene walk: the node, the visit of its parent (an index into the list of
/// visits; none for a root) and whether its mesh is shown.
#[derive(Copy, Clone, PartialEq, Eq, Structural, Debug)]
pub struct Visit {
    pub node: u32,
    pub parent: Option<usize>,
    pub visible: bool,
}

/// How the scene walk ended.
#[derive(Copy, Clone, PartialEq, Eq, Structural, Debug)]
pub enum WalkEnd {
    /// Every node was reached.
    Done,
    /// A root or child index names no node.
    NodeOutOfRange(u32),
    /// The last node visited shows a mesh that does not exist.
    MeshOutOfRange(u32),
    /// A path of nodes is longer than the number of nodes: the children links run in a cycle.
    Cycle,
}

/// The view of an optional owned name.
pub open spec fn owned_name(name: Option<String>) -> Option<Seq<char>> {
    match name {
        Some(n) => Some(n@),
        None => None,
    }
}

/// The name of the mesh of `node`, when it has one that exists and is named.
pub open spec fn mesh_name_of(node: WalkNode, meshes: Seq<Option<String>>) -> Option<Seq<char>> {
    match node.mesh {
        Some(m) => if m < meshes.len() {
            owned_name(meshes[m as int])
        } else {
            None
        },
        None => None,
    }
}

/// The walk from node `idx`, appended to the visits `acc`: the node itself (reached from visit
/// `parent`, under a parent included `pi` and excluded `pe`), then the walks from its children in
/// order, each stopping the whole walk at its first error. `depth` is how many more nodes a path
/// may hold.
pub open spec fn walk_from(
    nodes: Seq<WalkNode>,
    meshes: Seq<Option<String>>,
    shown: Seq<Seq<char>>,
    hidden: Seq<Seq<char>>,
    idx: u32,
    parent: Option<usize>,
    pi: bool,
    pe: bool,
    depth: nat,
    acc: Seq<Visit>,
) -> (Seq<Visit>, WalkEnd)
    decreases depth, 1int, 0int,
{
    if idx >= nodes.len() {
        (acc, WalkEnd::NodeOutOfRange(idx))
    } else if depth == 0 {
        (acc, WalkEnd::Cycle)
    } else {
        let node = nodes[idx as int];
        let v = visibility_spec(pi, pe, owned_name(node.name), mesh_name_of(node, meshes), shown, hidden);
        let here = acc.push(Visit { node: idx, parent, visible: v.visible });
        if v.visible && node.mesh is Some && node.mesh->0 >= meshes.len() {
            (here, WalkEnd::MeshOutOfRange(node.mesh->0))
        } else {
            walk_children(
                nodes,
                meshes,
                shown,
                hidden,
                node.children@,
                node.children@.len() as int,
                Some(acc.len() as usize),
                v.included,
                v.excluded,
                (depth - 1) as nat,
                here,
            )
        }
    }
}

/// The walks from the first `k` of `children`, one after the other, appended to `acc`, stopping
/// at the first that ends in an error.
pub open spec fn walk_children(
    nodes: Seq<WalkNode>,
    meshes: Seq<Option<String>>,
    shown: Seq<Seq<char>>,
    hidden: Seq<Seq<char>>,
    children: Seq<u32>,
    k: int,
    parent: Option<usize>,
    pi: bool,
    pe: bool,
    depth: nat,
    acc: Seq<Visit>,
) -> (Seq<Visit>, WalkEnd)
    decreases depth + 1, 0int, k,
{
    if k <= 0 {
        (acc, WalkEnd::Done)
    } else {
        let prev = walk_children(nodes, meshes, shown, hidden, children, k - 1, parent, pi, pe, depth, acc);
        if prev.1 is Done {
            walk_from(nodes, meshes, shown, hidden, children[k - 1], parent, pi, pe, depth, prev.0)
        } else {
            prev
        }
    }
}

/// Once the walks from the first `k` children end in an error, walking more children changes
/// nothing.
proof fn lemma_walk_children_stops(
    nodes: Seq<WalkNode>,
    meshes: Seq<Option<String>>,
    shown: Seq<Seq<char>>,
    hidden: Seq<Seq<char>>,
    children: Seq<u32>,
    k: int,
    j: int,
    parent: Option<usize>,
    pi: bool,
    pe: bool,
    depth: nat,
    acc: Seq<Visit>,
)
    requires
        0 <= k <= j,
        !(walk_children(nodes, meshes, shown, hidden, children, k, parent, pi, pe, depth, acc).1 is Done),
    ensures
        walk_children(nodes, meshes, shown, hidden, children, j, parent, pi, pe, depth, acc)
            == walk_children(nodes, meshes, shown, hidden, children, k, parent, pi, pe, depth, acc),
    decreases j - k,
{
    if j > k {
        lemma_walk_children_stops(nodes, meshes, shown, hidden, children, k, j - 1, parent, pi, pe, depth, acc);
    }
}

/// Visits `idx` and its subtree, appending to `out`; see `walk_from`.
fn walk_node(
    nodes: &Vec<WalkNode>,
    meshes: &Vec<Option<String>>,
    shown: &Vec<String>,
    hidden: &Vec<String>,
    idx: u32,
    parent: Option<usize>,
    pi: bool,
    pe: bool,
    depth: usize,
    out: &mut Vec<Visit>,
) -> (e: WalkEnd)
    ensures
        (final(out)@, e) == walk_from(
            nodes@,
            meshes@,
            names_of(shown@),
            names_of(hidden@),
            idx,
            parent,
            pi,
            pe,
            depth as nat,
            old(out)@,
        ),
    decreases depth,
{
    if idx as usize >= nodes.len() {
        return WalkEnd::NodeOutOfRange(idx);
    }
    if depth == 0 {
        return WalkEnd::Cycle;
    }
    let node = &nodes[idx as usize];
    let node_name: Option<&str> = match &node.name {
        Some(n) => Some(n.as_str()),
        None => None,
    };
    let mesh_name: Option<&str> = match node.mesh {
        Some(m) => if (m as usize) < meshes.len() {
            match &meshes[m as usize] {
                Some(n) => Some(n.as_str()),
                None => None,
            }
        } else {
            None
        },
        None => None,
    };
    let v = node_visibility(pi, pe, node_name, mesh_name, shown, hidden);
    let here = out.len();
    out.push(Visit { node: idx, parent, visible: v.visible });
    if v.visible {
        if let Some(m) = node.mesh {
            if m as usize >= meshes.len() {
                return WalkEnd::MeshOutOfRange(m);
            }
        }
    }
    let ghost start = out@;
    let ghost whole = walk_from(
        nodes@,
        meshes@,
        names_of(shown@),
        names_of(hidden@),
        idx,
        parent,
        pi,
        pe,
        depth as nat,
        old(out)@,
    );
    assert(whole == walk_children(
        nodes@,
        meshes@,
        names_of(shown@),
        names_of(hidden@),
        node.children@,
        node.children@.len() as int,
        Some(here),
        v.included,
        v.excluded,
        (depth - 1) as nat,
        start,
    ));
    let mut k: usize = 0;
    while k < node.children.len()
        invariant
            k <= node.children@.len(),
            1 <= depth,
            whole == walk_from(
                nodes@,
                meshes@,
                names_of(shown@),
                names_of(hidden@),
                idx,
                parent,
                pi,
                pe,
                depth as nat,
                old(out)@,
            ),
            whole == walk_children(
                nodes@,
                meshes@,
                names_of(shown@),
                names_of(hidden@),
                node.children@,
                node.children@.len() as int,
                Some(here),
                v.included,
                v.excluded,
                (depth - 1) as nat,
                start,
            ),
            (out@, WalkEnd::Done) == walk_children(
                nodes@,
                meshes@,
                names_of(shown@),
                names_of(hidden@),
                node.children@,
                k as int,
                Some(here),
                v.included,
                v.excluded,
                (depth - 1) as nat,
                start,
            ),
        decreases node.children@.len() - k,
    {
        let e = walk_node(nodes, meshes, shown, hidden, node.children[k], Some(here), v.included, v.excluded, depth - 1, out);
        k = k + 1;
        assert((out@, e) == walk_children(
            nodes@,
            meshes@,
            names_of(shown@),
            names_of(hidden@),
            node.children@,
            k as int,
            Some(here),
            v.included,
            v.excluded,
            (depth - 1) as nat,
            start,
        ));
        if !(e == WalkEnd::Done) {
            proof {
                lemma_walk_children_stops(
                    nodes@,
                    meshes@,
                    names_of(shown@),
                    names_of(hidden@),
                    node.children@,
                    k as int,
                    node.children@.len() as int,
                    Some(here),
                    v.included,
                    v.excluded,
                    (depth - 1) as nat,
                    start,
                );
            }
            return e;
        }
    }
    WalkEnd::Done
}

/// The nodes of a scene with roots `roots`, visited depth first and in order (each node before
/// its children, children in their listed order), with whether each shows its mesh given the
/// `shown` and `hidden` name lists; and how the walk ended. The walk stops at the first root or
/// child index that names no node, at the first visible node whose mesh does not exist (that
/// node is the last visit), and at a path longer than the number of nodes, which only a cycle of
/// children links makes.
pub fn walk_scene(
    nodes: &Vec<WalkNode>,
    meshes: &Vec<Option<String>>,
    roots: &Vec<u32>,
    shown: &Vec<String>,
    hidden: &Vec<String>,
) -> (r: (Vec<Visit>, WalkEnd))
    ensures
        (r.0@, r.1) == walk_children(
            nodes@,
            meshes@,
            names_of(shown@),
            names_of(hidden@),
            roots@,
            roots@.len() as int,
            None,
            shown@.len() == 0,
            false,
            nodes@.len() as nat,
            Seq::empty(),
        ),
{
    let included = roots_included(shown);
    let mut out: Vec<Visit> = Vec::new();
    let mut k: usize = 0;
    while k < roots.len()
        invariant
            k <= roots@.len(),
            included == (shown@.len() == 0),
            (out@, WalkEnd::Done) == walk_children(
                nodes@,
                meshes@,
                names_of(shown@),
                names_of(hidden@),
                roots@,
                k as int,
                None,
                included,
                false,
                nodes@.len() as nat,
                Seq::empty(),
            ),
        decreases roots@.len() - k,
    {
        let e = walk_node(nodes, meshes, shown, hidden, roots[k], None, included, false, nodes.len(), &mut out);
        k = k + 1;
        if !(e == WalkEnd::Done) {
            proof {
                lemma_walk_children_stops(
                    nodes@,
                    meshes@,
                    names_of(shown@),
                    names_of(hidden@),
                    roots@,
                    k as int,
                    roots@.len() as int,
                    None,
                    included,
                    false,
                    nodes@.len() as nat,
                    Seq::empty(),
                );
            }
            return (out, e);
        }
    }
    (out, WalkEnd::Done)
}

} // verus!
