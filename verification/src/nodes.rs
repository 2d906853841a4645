//! The node structure of an exported scene: each node's children and the roots, rebuilt from
//! parent links, and the meshes grouped by the node they hang from.
use vstd::prelude::*;

verus! {

/// The indices `i < n` whose parent is `parent` (`None`: the roots), in increasing order.
pub open spec fn children_of(parents: Seq<Option<u32>>, n: int, parent: Option<u32>) -> Seq<u32>
    decreases n,
{
    if n <= 0 {
        Seq::empty()
    } else {
        children_of(parents, n - 1, parent) + if parents[n - 1] == parent {
            seq![(n - 1) as u32]
        } else {
            Seq::empty()
        }
    }
}

/// Node `i` is listed among the children of `parent` (the roots, for `None`) exactly when that is
/// its parent link, and no list holds a node twice: every node shows up once in the hierarchy.
pub proof fn lemma_children_of_lists_each_node_once(parents: Seq<Option<u32>>, n: int, parent: Option<u32>, i: int)
    requires
        0 <= n <= parents.len(),
        n <= u32::MAX + 1,
        0 <= i < n,
    ensures
        children_of(parents, n, parent).contains(i as u32) <==> parents[i] == parent,
        children_of(parents, n, parent).no_duplicates(),
    decreases n,
{
    lemma_children_of_below(parents, n, parent);
    if n - 1 > i {
        lemma_children_of_lists_each_node_once(parents, n - 1, parent, i);
        let prev = children_of(parents, n - 1, parent);
        let cur = children_of(parents, n, parent);
        if cur.contains(i as u32) {
            let j = choose|j: int| 0 <= j < cur.len() && cur[j] == i as u32;
            if j >= prev.len() {
                assert(cur[j] == (n - 1) as u32);
            } else {
                assert(prev[j] == i as u32);
            }
        }
        if prev.contains(i as u32) {
            let j = choose|j: int| 0 <= j < prev.len() && prev[j] == i as u32;
            assert(cur[j] == i as u32);
        }
    } else {
        lemma_children_of_below(parents, n - 1, parent);
        let prev = children_of(parents, n - 1, parent);
        let cur = children_of(parents, n, parent);
        if parents[i] == parent {
            assert(cur[prev.len() as int] == i as u32);
        } else {
            assert(cur =~= prev);
            if prev.contains(i as u32) {
                let j = choose|j: int| 0 <= j < prev.len() && prev[j] == i as u32;
                assert(prev[j] < n - 1);
            }
        }
    }
}

/// The children listed among the first `n` nodes are below `n`, in increasing order.
proof fn lemma_children_of_below(parents: Seq<Option<u32>>, n: int, parent: Option<u32>)
    requires
        0 <= n <= parents.len(),
        n <= u32::MAX + 1,
    ensures
        forall|j: int| 0 <= j < children_of(parents, n, parent).len() ==> #[trigger] children_of(parents, n, parent)[j] < n,
        forall|j: int, k: int|
            0 <= j < k < children_of(parents, n, parent).len() ==> #[trigger] children_of(parents, n, parent)[j]
                < #[trigger] children_of(parents, n, parent)[k],
        children_of(parents, n, parent).no_duplicates(),
    decreases n,
{
    if n > 0 {
        lemma_children_of_below(parents, n - 1, parent);
    }
}

/// The node hierarchy from parent links: for each node, its children in node order, and the
/// roots (nodes without a parent) in node order.
pub fn build_hierarchy(parents: &Vec<Option<u32>>) -> (r: (Vec<Vec<u32>>, Vec<u32>))
    requires
        parents@.len() <= u32::MAX,
        forall|i: int| 0 <= i < parents@.len() ==> (#[trigger] parents@[i] matches Some(p) ==> p < parents@.len()),
    ensures
        r.0@.len() == parents@.len(),
        forall|p: int|
            0 <= p < parents@.len() ==> (#[trigger] r.0@[p])@ == children_of(
                parents@,
                parents@.len() as int,
                Some(p as u32),
            ),
        r.1@ == children_of(parents@, parents@.len() as int, None),
{
    let n = parents.len();
    let mut children: Vec<Vec<u32>> = Vec::new();
    let mut k: usize = 0;
    while k < n
        invariant
            k <= n,
            n == parents@.len(),
            children@.len() == k,
            forall|p: int| 0 <= p < k ==> (#[trigger] children@[p])@ == Seq::<u32>::empty(),
        decreases n - k,
    {
        children.push(Vec::new());
        k = k + 1;
    }
    let mut roots: Vec<u32> = Vec::new();
    let mut i: usize = 0;
    while i < n
        invariant
            i <= n,
            n == parents@.len(),
            n <= u32::MAX,
            forall|j: int| 0 <= j < parents@.len() ==> (#[trigger] parents@[j] matches Some(p) ==> p < parents@.len()),
            children@.len() == n,
            forall|p: int| 0 <= p < n ==> (#[trigger] children@[p])@ == children_of(parents@, i as int, Some(p as u32)),
            roots@ == children_of(parents@, i as int, None),
        decreases n - i,
    {
        let ghost before = children@;
        match parents[i] {
            Some(p) => {
                children[p as usize].push(i as u32);
            },
            None => {
                roots.push(i as u32);
            },
        }
        proof {
            assert forall|p: int| 0 <= p < n implies (#[trigger] children@[p])@ == children_of(
                parents@,
                i + 1,
                Some(p as u32),
            ) by {
                if parents@[i as int] == Some(p as u32) {
                    assert(p == parents@[i as int]->0);
                    assert(children@[p]@ =~= before[p]@.push(i as u32));
                } else {
                    assert(children@[p] == before[p]);
                    assert(children@[p]@ =~= children_of(parents@, i + 1, Some(p as u32)));
                }
            }
            assert(roots@ =~= children_of(parents@, i + 1, None));
        }
        i = i + 1;
    }
    (children, roots)
}

/// The distinct values among the first `n` of `keys`, in order of first appearance.
pub open spec fn first_seen(keys: Seq<u32>, n: int) -> Seq<u32>
    decreases n,
{
    if n <= 0 {
        Seq::empty()
    } else {
        let prev = first_seen(keys, n - 1);
        if prev.contains(keys[n - 1]) {
            prev
        } else {
            prev.push(keys[n - 1])
        }
    }
}

/// The positions `i < n` whose value is `key`, in increasing order.
pub open spec fn positions_of(keys: Seq<u32>, n: int, key: u32) -> Seq<usize>
    decreases n,
{
    if n <= 0 {
        Seq::empty()
    } else {
        positions_of(keys, n - 1, key) + if keys[n - 1] == key {
            seq![(n - 1) as usize]
        } else {
            Seq::empty()
        }
    }
}

proof fn lemma_positions_absent(keys: Seq<u32>, n: int, key: u32)
    requires
        0 <= n <= keys.len(),
        forall|c: int| 0 <= c < n ==> keys[c] != key,
    ensures
        positions_of(keys, n, key) == Seq::<usize>::empty(),
    decreases n,
{
    if n > 0 {
        lemma_positions_absent(keys, n - 1, key);
    }
}

proof fn lemma_first_seen_covers(keys: Seq<u32>, n: int)
    requires
        0 <= n <= keys.len(),
    ensures
        forall|c: int| 0 <= c < n ==> first_seen(keys, n).contains(#[trigger] keys[c]),
    decreases n,
{
    if n > 0 {
        lemma_first_seen_covers(keys, n - 1);
        let prev = first_seen(keys, n - 1);
        let cur = first_seen(keys, n);
        assert forall|c: int| 0 <= c < n implies cur.contains(#[trigger] keys[c]) by {
            if c < n - 1 && !prev.contains(keys[n - 1]) {
                let j = choose|j: int| 0 <= j < prev.len() && prev[j] == keys[c];
                assert(cur[j] == keys[c]);
            } else if c == n - 1 && !prev.contains(keys[n - 1]) {
                assert(cur[prev.len() as int] == keys[c]);
            }
        }
    }
}

proof fn lemma_first_seen_distinct(keys: Seq<u32>, n: int)
    requires
        0 <= n <= keys.len(),
    ensures
        first_seen(keys, n).no_duplicates(),
    decreases n,
{
    if n > 0 {
        lemma_first_seen_distinct(keys, n - 1);
    }
}

/// The positions listed among the first `n` are below `n`, in increasing order.
proof fn lemma_positions_below(keys: Seq<u32>, n: int, key: u32)
    requires
        0 <= n <= keys.len(),
        keys.len() <= usize::MAX,
    ensures
        forall|j: int| 0 <= j < positions_of(keys, n, key).len() ==> #[trigger] positions_of(keys, n, key)[j] < n,
        forall|j: int, k: int|
            0 <= j < k < positions_of(keys, n, key).len() ==> #[trigger] positions_of(keys, n, key)[j]
                < #[trigger] positions_of(keys, n, key)[k],
        positions_of(keys, n, key).no_duplicates(),
    decreases n,
{
    if n > 0 {
        lemma_positions_below(keys, n - 1, key);
    }
}

/// Position `i` is listed among the positions of `key` exactly when `keys[i]` is `key`.
proof fn lemma_positions_of_member(keys: Seq<u32>, n: int, key: u32, i: int)
    requires
        0 <= n <= keys.len(),
        keys.len() <= usize::MAX,
        0 <= i < n,
    ensures
        positions_of(keys, n, key).contains(i as usize) <==> keys[i] == key,
    decreases n,
{
    lemma_positions_below(keys, n, key);
    lemma_positions_below(keys, n - 1, key);
    let prev = positions_of(keys, n - 1, key);
    let cur = positions_of(keys, n, key);
    if n - 1 > i {
        lemma_positions_of_member(keys, n - 1, key, i);
        if cur.contains(i as usize) {
            let j = choose|j: int| 0 <= j < cur.len() && cur[j] == i as usize;
            if j >= prev.len() {
                assert(cur[j] == (n - 1) as usize);
            } else {
                assert(prev[j] == i as usize);
            }
        }
        if prev.contains(i as usize) {
            let j = choose|j: int| 0 <= j < prev.len() && prev[j] == i as usize;
            assert(cur[j] == i as usize);
        }
    } else {
        if keys[i] == key {
            assert(cur[prev.len() as int] == i as usize);
        } else {
            assert(cur =~= prev);
            if prev.contains(i as usize) {
                let j = choose|j: int| 0 <= j < prev.len() && prev[j] == i as usize;
                assert(prev[j] < n - 1);
            }
        }
    }
}

/// Grouping meshes by node puts every mesh in exactly one group, the group of its node: the
/// groups' nodes are distinct, every mesh's node has a group, and a group lists a mesh exactly
/// when the mesh hangs from the group's node, each at most once.
pub proof fn lemma_each_mesh_in_one_group(parents: Seq<u32>, m: int, g: int)
    requires
        parents.len() <= usize::MAX,
        0 <= m < parents.len(),
        0 <= g < first_seen(parents, parents.len() as int).len(),
    ensures
        first_seen(parents, parents.len() as int).no_duplicates(),
        first_seen(parents, parents.len() as int).contains(parents[m]),
        positions_of(parents, parents.len() as int, first_seen(parents, parents.len() as int)[g]).contains(m as usize)
            <==> parents[m] == first_seen(parents, parents.len() as int)[g],
        positions_of(parents, parents.len() as int, first_seen(parents, parents.len() as int)[g]).no_duplicates(),
{
    let n = parents.len() as int;
    lemma_first_seen_distinct(parents, n);
    lemma_first_seen_covers(parents, n);
    lemma_positions_of_member(parents, n, first_seen(parents, n)[g], m);
    lemma_positions_below(parents, n, first_seen(parents, n)[g]);
}

/// The meshes grouped by the node they hang from: `parents[m]` is mesh `m`'s node. One group per
/// node, in order of the node's first mesh, listing that node's meshes in order.
pub fn group_meshes_by_node(parents: &Vec<u32>) -> (groups: Vec<(u32, Vec<usize>)>)
    ensures
        groups@.len() == first_seen(parents@, parents@.len() as int).len(),
        forall|g: int|
            0 <= g < groups@.len() ==> (#[trigger] groups@[g]).0 == first_seen(parents@, parents@.len() as int)[g]
                && groups@[g].1@ == positions_of(parents@, parents@.len() as int, groups@[g].0),
{
    let mut groups: Vec<(u32, Vec<usize>)> = Vec::new();
    let mut m: usize = 0;
    while m < parents.len()
        invariant
            m <= parents@.len(),
            groups@.len() == first_seen(parents@, m as int).len(),
            forall|g: int|
                0 <= g < groups@.len() ==> (#[trigger] groups@[g]).0 == first_seen(parents@, m as int)[g]
                    && groups@[g].1@ == positions_of(parents@, m as int, groups@[g].0),
        decreases parents@.len() - m,
    {
        let key = parents[m];
        let ghost fs = first_seen(parents@, m as int);
        let mut found: Option<usize> = None;
        let mut g: usize = 0;
        while g < groups.len()
            invariant
                g <= groups@.len(),
                groups@.len() == fs.len(),
                forall|j: int| 0 <= j < groups@.len() ==> (#[trigger] groups@[j]).0 == fs[j],
                found matches Some(f) ==> f < groups@.len() && fs[f as int] == key,
                found is None ==> forall|j: int| 0 <= j < g ==> fs[j] != key,
            decreases groups@.len() - g,
        {
            if found.is_none() && groups[g].0 == key {
                found = Some(g);
            }
            g = g + 1;
        }
        let ghost old_groups = groups@;
        let slot = match found {
            Some(f) => f,
            None => {
                groups.push((key, Vec::new()));
                proof {
                    lemma_first_seen_covers(parents@, m as int);
                    assert forall|c: int| 0 <= c < m implies parents@[c] != key by {
                        assert(fs.contains(parents@[c]));
                    }
                    lemma_positions_absent(parents@, m as int, key);
                }
                groups.len() - 1
            },
        };
        let ghost next_fs = first_seen(parents@, m + 1);
        proof {
            lemma_first_seen_distinct(parents@, m + 1);
            assert(next_fs == if fs.contains(key) { fs } else { fs.push(key) });
            assert(groups@[slot as int].1@ == positions_of(parents@, m as int, key));
        }
        let mut moved: Vec<usize> = Vec::new();
        std::mem::swap(&mut moved, &mut groups[slot].1);
        moved.push(m);
        std::mem::swap(&mut moved, &mut groups[slot].1);
        proof {
            assert forall|j: int| 0 <= j < groups@.len() implies (#[trigger] groups@[j]).0 == next_fs[j]
                && groups@[j].1@ == positions_of(parents@, m + 1, groups@[j].0) by {
                if j == slot {
                    assert(groups@[j].1@ =~= positions_of(parents@, m as int, key).push(m));
                } else {
                    if j < old_groups.len() {
                        assert(groups@[j] == old_groups[j]);
                    }
                    assert(next_fs[j] != next_fs[slot as int]);
                    assert(groups@[j].1@ =~= positions_of(parents@, m + 1, groups@[j].0));
                }
            }
        }
        m = m + 1;
    }
    groups
}

/// Whether some mesh of `meshes` has primitives, by `counts` (primitives per mesh).
pub open spec fn any_primitives(meshes: Seq<usize>, counts: Seq<usize>) -> bool {
    exists|i: int| 0 <= i < meshes.len() && #[trigger] counts[meshes[i] as int] > 0
}

/// The groups among the first `n` of `groups` whose meshes have any primitive, in order: their
/// node and their position in `groups`.
pub open spec fn kept_groups(groups: Seq<(u32, Vec<usize>)>, counts: Seq<usize>, n: int) -> Seq<(u32, usize)>
    decreases n,
{
    if n <= 0 {
        Seq::empty()
    } else {
        kept_groups(groups, counts, n - 1) + if any_primitives(groups[n - 1].1@, counts) {
            seq![(groups[n - 1].0, (n - 1) as usize)]
        } else {
            Seq::empty()
        }
    }
}

/// The glTF meshes of an export: one per group of meshes (see `group_meshes_by_node`) whose
/// models give it any primitive, numbered in group order; for each, its node and its group.
/// `counts[m]` is the number of primitives of mesh `m`'s model.
pub fn assign_meshes(groups: &Vec<(u32, Vec<usize>)>, counts: &Vec<usize>) -> (r: Vec<(u32, usize)>)
    requires
        forall|g: int, i: int|
            0 <= g < groups@.len() && 0 <= i < groups@[g].1@.len() ==> (#[trigger] groups@[g].1@[i] as int)
                < counts@.len(),
    ensures
        r@ == kept_groups(groups@, counts@, groups@.len() as int),
{
    let mut r: Vec<(u32, usize)> = Vec::new();
    let mut g: usize = 0;
    while g < groups.len()
        invariant
            g <= groups@.len(),
            forall|g2: int, i: int|
                0 <= g2 < groups@.len() && 0 <= i < groups@[g2].1@.len() ==> (#[trigger] groups@[g2].1@[i] as int)
                    < counts@.len(),
            r@ == kept_groups(groups@, counts@, g as int),
        decreases groups@.len() - g,
    {
        let meshes = &groups[g].1;
        let mut any = false;
        let mut i: usize = 0;
        while i < meshes.len()
            invariant
                i <= meshes@.len(),
                meshes@ == groups@[g as int].1@,
                forall|j: int| 0 <= j < meshes@.len() ==> (#[trigger] meshes@[j] as int) < counts@.len(),
                any == exists|j: int| 0 <= j < i && #[trigger] counts@[meshes@[j] as int] > 0,
            decreases meshes@.len() - i,
        {
            if counts[meshes[i]] > 0 {
                any = true;
            }
            i = i + 1;
        }
        if any {
            r.push((groups[g].0, g));
        }
        proof {
            assert(any == any_primitives(groups@[g as int].1@, counts@));
            assert(r@ =~= kept_groups(groups@, counts@, g + 1));
        }
        g = g + 1;
    }
    r
}

} // verus!
