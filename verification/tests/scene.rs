use render_core::handle::Handle;
use render_core::scene::{Node, Scene, SceneError, TransformStep};

fn step(node: Handle, parent: Option<Handle>) -> TransformStep {
    TransformStep { node, parent }
}

#[test]
fn inserted_node_is_a_childless_root() {
    let mut scene = Scene::new();
    let linked = Node { parent: Some(Handle::from_raw_parts(7, 7)), children: vec![Handle::from_raw_parts(8, 8)], mesh: None };
    let h = scene.insert(linked);
    let node = scene.get_node(h).unwrap();
    assert_eq!(node.parent, None);
    assert!(node.children.is_empty());
    assert_eq!(node.mesh, None);
    assert!(scene.get_node(Handle::from_raw_parts(99, 0)).is_none());
}

#[test]
fn attach_links_both_ways() {
    let mut scene = Scene::new();
    let r = scene.insert(Node::new(None));
    let a = scene.insert(Node::new(None));
    let b = scene.insert(Node::new(None));
    assert_eq!(scene.attach(r, a), Ok(()));
    assert_eq!(scene.attach(r, b), Ok(()));
    assert_eq!(scene.get_node(r).unwrap().children, vec![a, b]);
    assert_eq!(scene.get_node(a).unwrap().parent, Some(r));
    assert_eq!(scene.get_node(b).unwrap().parent, Some(r));
    assert_eq!(scene.get_node(r).unwrap().parent, None);
}

#[test]
fn attach_refuses_missing_attached_and_cycles() {
    let mut scene = Scene::new();
    let r = scene.insert(Node::new(None));
    let a = scene.insert(Node::new(None));
    let b = scene.insert(Node::new(None));
    let stale = Handle::from_raw_parts(50, 3);
    assert_eq!(scene.attach(stale, a), Err(SceneError::MissingNode));
    assert_eq!(scene.attach(r, stale), Err(SceneError::MissingNode));
    assert_eq!(scene.attach(r, a), Ok(()));
    assert_eq!(scene.attach(a, b), Ok(()));
    assert_eq!(scene.attach(r, a), Err(SceneError::AlreadyAttached));
    assert_eq!(scene.attach(b, a), Err(SceneError::AlreadyAttached));
    assert_eq!(scene.attach(r, r), Err(SceneError::WouldCycle));
    assert_eq!(scene.attach(b, r), Err(SceneError::WouldCycle));
    assert_eq!(scene.attach(a, r), Err(SceneError::WouldCycle));
    assert_eq!(scene.get_node(r).unwrap().parent, None);
    assert_eq!(scene.get_node(r).unwrap().children, vec![a]);
}

#[test]
fn is_below_follows_parent_links() {
    let mut scene = Scene::new();
    let r = scene.insert(Node::new(None));
    let a = scene.insert(Node::new(None));
    let b = scene.insert(Node::new(None));
    let other = scene.insert(Node::new(None));
    scene.attach(r, a).unwrap();
    scene.attach(a, b).unwrap();
    assert!(scene.is_below(b, r));
    assert!(scene.is_below(b, a));
    assert!(scene.is_below(b, b));
    assert!(!scene.is_below(r, b));
    assert!(!scene.is_below(other, r));
    assert!(!scene.is_below(Handle::from_raw_parts(77, 0), r));
}

#[test]
fn detach_makes_a_root_again() {
    let mut scene = Scene::new();
    let r = scene.insert(Node::new(None));
    let a = scene.insert(Node::new(None));
    let b = scene.insert(Node::new(None));
    let c = scene.insert(Node::new(None));
    scene.attach(r, a).unwrap();
    scene.attach(r, b).unwrap();
    scene.attach(r, c).unwrap();
    assert_eq!(scene.detach(b), Ok(()));
    assert_eq!(scene.get_node(r).unwrap().children, vec![a, c]);
    assert_eq!(scene.get_node(b).unwrap().parent, None);
    assert_eq!(scene.detach(b), Ok(()));
    assert_eq!(scene.detach(r), Ok(()));
    assert_eq!(scene.detach(Handle::from_raw_parts(40, 1)), Err(SceneError::MissingNode));
    assert_eq!(scene.attach(b, r), Ok(()));
    assert_eq!(scene.get_node(r).unwrap().parent, Some(b));
}

#[test]
fn flat_scene_world_is_local() {
    let mut scene = Scene::new();
    let a = scene.insert(Node::new(None));
    let b = scene.insert(Node::new(Some(Handle::from_raw_parts(0, 0))));
    let c = scene.insert(Node::new(None));
    assert_eq!(scene.update_world_transforms(), vec![step(a, None), step(b, None), step(c, None)]);
}

#[test]
fn chain_is_composed_root_first() {
    let mut scene = Scene::new();
    let b = scene.insert(Node::new(None));
    let a = scene.insert(Node::new(None));
    let r = scene.insert(Node::new(None));
    scene.attach(a, b).unwrap();
    scene.attach(r, a).unwrap();
    assert_eq!(
        scene.update_world_transforms(),
        vec![step(r, None), step(a, Some(r)), step(b, Some(a))]
    );
}

#[test]
fn update_visits_parents_before_children_in_every_tree() {
    let mut scene = Scene::new();
    let r1 = scene.insert(Node::new(None));
    let x = scene.insert(Node::new(None));
    let r2 = scene.insert(Node::new(None));
    let y = scene.insert(Node::new(None));
    let z = scene.insert(Node::new(None));
    scene.attach(r2, x).unwrap();
    scene.attach(r1, y).unwrap();
    scene.attach(y, z).unwrap();
    scene.attach(r1, r2).unwrap();
    assert_eq!(
        scene.update_world_transforms(),
        vec![
            step(r1, None),
            step(y, Some(r1)),
            step(z, Some(y)),
            step(r2, Some(r1)),
            step(x, Some(r2)),
        ]
    );
}

#[test]
fn visible_items_are_the_reachable_nodes_with_a_mesh() {
    let mesh = Some(Handle::from_raw_parts(5, 0));
    let stale_mesh = Some(Handle::from_raw_parts(123, 9));
    let mut scene = Scene::new();
    let root = scene.insert(Node::new(None));
    let a = scene.insert(Node::new(mesh));
    let b = scene.insert(Node::new(None));
    let c = scene.insert(Node::new(stale_mesh));
    let d = scene.insert(Node::new(mesh));
    let elsewhere = scene.insert(Node::new(mesh));
    scene.attach(root, a).unwrap();
    scene.attach(root, b).unwrap();
    scene.attach(a, c).unwrap();
    scene.attach(b, d).unwrap();
    assert_eq!(scene.collect_visible_sub_items(root), vec![a, c, d]);
    assert_eq!(scene.collect_visible_sub_items(a), vec![a, c]);
    assert_eq!(scene.collect_visible_sub_items(b), vec![d]);
    assert_eq!(scene.collect_visible_sub_items(elsewhere), vec![elsewhere]);
    assert_eq!(scene.collect_visible_sub_items(Handle::from_raw_parts(60, 2)), vec![]);
}

#[test]
fn visible_items_of_a_root_with_its_own_mesh_start_with_it() {
    let mesh = Some(Handle::from_raw_parts(1, 0));
    let mut scene = Scene::new();
    let root = scene.insert(Node::new(mesh));
    let child = scene.insert(Node::new(mesh));
    scene.attach(root, child).unwrap();
    assert_eq!(scene.collect_visible_sub_items(root), vec![root, child]);
    scene.detach(child).unwrap();
    assert_eq!(scene.collect_visible_sub_items(root), vec![root]);
}
