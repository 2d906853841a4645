use voxels::scene_graph::roots_included;
use voxels::nodes::{assign_meshes, build_hierarchy, group_meshes_by_node};
use voxels::registry::{SceneError, SceneRegistry};
use voxels::scene_graph::{name_matches, node_visibility, walk_scene, Visit, WalkEnd, WalkNode};

fn names(list: &[&str]) -> Vec<String> {
    list.iter().map(|s| s.to_string()).collect()
}

#[test]
fn node_mesh_and_animation_names_are_unique() {
    let mut scene = SceneRegistry::new();
    let root = scene.create_root_node("root".to_string()).unwrap();
    assert_eq!(root, 0);
    let spinner = scene.create_child_node(root, "spinner".to_string()).unwrap();
    assert_eq!(spinner, 1);
    assert_eq!(scene.create_root_node("spinner".to_string()), Err(SceneError::DuplicateNode));
    assert_eq!(scene.create_child_node(root, "root".to_string()), Err(SceneError::DuplicateNode));
    assert_eq!(scene.nodes.len(), 2);

    assert_eq!(scene.add_model(spinner, "chair".to_string(), 11).unwrap(), 0);
    assert_eq!(scene.add_model(root, "chair".to_string(), 12), Err(SceneError::DuplicateMesh));
    assert_eq!(scene.meshes.len(), 1);

    assert_eq!(scene.create_anim("spin".to_string()).unwrap(), 0);
    assert_eq!(scene.create_anim("spin".to_string()), Err(SceneError::DuplicateAnim));
    assert_eq!(
        SceneError::DuplicateNode.message(),
        "there is already a node with this name, and duplicates are disallowed"
    );
    assert_eq!(
        SceneError::DuplicateAnim.message(),
        "there is already an animation with this name, and duplicates are disallowed"
    );
}

#[test]
fn the_node_tree_lists_children_and_roots_in_node_order() {
    let mut scene = SceneRegistry::new();
    let a = scene.create_root_node("a".to_string()).unwrap();
    let b = scene.create_child_node(a, "b".to_string()).unwrap();
    let c = scene.create_root_node("c".to_string()).unwrap();
    let d = scene.create_child_node(a, "d".to_string()).unwrap();
    let _e = scene.create_child_node(b, "e".to_string()).unwrap();
    let (children, roots) = scene.node_tree();
    assert_eq!(roots, vec![a, c]);
    assert_eq!(children[a as usize], vec![b, d]);
    assert_eq!(children[b as usize], vec![4]);
    assert!(children[c as usize].is_empty());
}

#[test]
fn build_hierarchy_from_parent_links() {
    let (children, roots) = build_hierarchy(&vec![None, Some(0), Some(0), None, Some(3)]);
    assert_eq!(roots, vec![0, 3]);
    assert_eq!(children, vec![vec![1, 2], vec![], vec![], vec![4], vec![]]);
}

#[test]
fn meshes_group_by_node_in_order_of_first_mesh() {
    let groups = group_meshes_by_node(&vec![2, 0, 2, 1, 0]);
    assert_eq!(groups, vec![(2, vec![0, 2]), (0, vec![1, 4]), (1, vec![3])]);
    let mut scene = SceneRegistry::new();
    let a = scene.create_root_node("a".to_string()).unwrap();
    let b = scene.create_root_node("b".to_string()).unwrap();
    scene.add_model(b, "m0".to_string(), 1).unwrap();
    scene.add_model(a, "m1".to_string(), 1).unwrap();
    scene.add_model(b, "m2".to_string(), 2).unwrap();
    assert_eq!(scene.mesh_groups(), vec![(b, vec![0, 2]), (a, vec![1])]);
}

#[test]
fn name_matching_needs_a_name_on_the_list() {
    let list = names(&["shown", "triangle_mesh"]);
    assert!(name_matches(Some("shown"), &list));
    assert!(!name_matches(Some("not_shown"), &list));
    assert!(!name_matches(None, &list));
    assert!(!name_matches(Some("shown"), &Vec::new()));
}

#[test]
fn exclude_hides_a_whole_subtree() {
    let hidden = names(&["parent"]);
    let parent = node_visibility(true, false, Some("parent"), None, &Vec::new(), &hidden);
    assert!(parent.excluded && !parent.visible);
    let child = node_visibility(parent.included, parent.excluded, Some("hidden_child"), Some("triangle_mesh"), &Vec::new(), &hidden);
    assert!(!child.visible);
}

#[test]
fn include_shows_only_the_named_subtree() {
    let shown = names(&["shown"]);
    let a = node_visibility(false, false, Some("shown"), None, &shown, &Vec::new());
    let b = node_visibility(false, false, Some("not_shown"), None, &shown, &Vec::new());
    assert!(a.visible);
    assert!(!b.visible);
    let child = node_visibility(a.included, a.excluded, Some("anything"), None, &shown, &Vec::new());
    assert!(child.visible);
}

#[test]
fn include_matches_by_mesh_name_too() {
    let shown = names(&["triangle_mesh"]);
    let v = node_visibility(false, false, Some("unnamed_use"), Some("triangle_mesh"), &shown, &Vec::new());
    assert!(v.visible);
}

#[test]
fn exclude_wins_even_under_an_included_ancestor() {
    let shown = names(&["included_parent"]);
    let hidden = names(&["excluded_child"]);
    let parent = node_visibility(false, false, Some("included_parent"), None, &shown, &hidden);
    assert!(parent.visible);
    let child = node_visibility(parent.included, parent.excluded, Some("excluded_child"), None, &shown, &hidden);
    assert!(child.included && child.excluded && !child.visible);
}

#[test]
fn only_groups_with_primitives_get_a_mesh() {
    let groups = vec![(3u32, vec![0usize, 2]), (1, vec![1]), (0, vec![3])];
    let counts = vec![0usize, 2, 0, 1];
    assert_eq!(assign_meshes(&groups, &counts), vec![(1, 1), (0, 2)]);
    assert_eq!(assign_meshes(&groups, &vec![0, 0, 0, 0]), vec![]);
}

#[test]
fn without_an_include_list_everything_not_excluded_shows() {
    let none: Vec<String> = Vec::new();
    let hidden = names(&["gone"]);
    let start = roots_included(&none);
    assert!(start);
    assert!(!roots_included(&names(&["x"])));
    assert!(node_visibility(start, false, Some("kept"), Some("mesh"), &none, &hidden).visible);
    assert!(!node_visibility(start, false, Some("kept"), Some("gone"), &none, &hidden).visible);
}

fn walk_node(name: &str, mesh: Option<u32>, children: &[u32]) -> WalkNode {
    WalkNode { name: Some(name.to_string()), mesh, children: children.to_vec() }
}

fn visit(node: u32, parent: Option<usize>, visible: bool) -> Visit {
    Visit { node, parent, visible }
}

#[test]
fn the_scene_walk_visits_nodes_depth_first_with_inherited_visibility() {
    // 0 -> (1 -> 3, 2); meshes: 0 "body", 1 "hat"
    let nodes = vec![
        walk_node("root", None, &[1, 2]),
        walk_node("torso", Some(0), &[3]),
        walk_node("arm", Some(0), &[]),
        walk_node("head", Some(1), &[]),
    ];
    let meshes = vec![Some("body".to_string()), Some("hat".to_string())];
    let (visits, end) = walk_scene(&nodes, &meshes, &vec![0], &names(&["torso"]), &names(&["hat"]));
    assert_eq!(end, WalkEnd::Done);
    assert_eq!(
        visits,
        vec![visit(0, None, false), visit(1, Some(0), true), visit(3, Some(1), false), visit(2, Some(0), false)]
    );
    let (visits, end) = walk_scene(&nodes, &meshes, &vec![0], &names(&[]), &names(&[]));
    assert_eq!(end, WalkEnd::Done);
    assert!(visits.iter().all(|v| v.visible));
}

#[test]
fn the_scene_walk_stops_at_bad_indices_and_cycles() {
    let nodes = vec![walk_node("a", None, &[1, 5]), walk_node("b", Some(7), &[]), walk_node("c", None, &[])];
    let meshes: Vec<Option<String>> = vec![None];
    let (visits, end) = walk_scene(&nodes, &meshes, &vec![2, 0], &names(&[]), &names(&["b"]));
    assert_eq!(end, WalkEnd::NodeOutOfRange(5));
    assert_eq!(visits, vec![visit(2, None, true), visit(0, None, true), visit(1, Some(1), false)]);
    let (visits, end) = walk_scene(&nodes, &meshes, &vec![0], &names(&[]), &names(&[]));
    assert_eq!(end, WalkEnd::MeshOutOfRange(7));
    assert_eq!(visits, vec![visit(0, None, true), visit(1, Some(0), true)]);
    let looped = vec![walk_node("x", None, &[1]), walk_node("y", None, &[0])];
    let (visits, end) = walk_scene(&looped, &meshes, &vec![0], &names(&[]), &names(&[]));
    assert_eq!(end, WalkEnd::Cycle);
    assert_eq!(visits.len(), 2);
}
