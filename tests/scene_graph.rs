use gloom::scene_graph::{
    DrawCall, SceneError, SceneGraph, SceneNode, SceneNodeType, UpdateStep, VAOobj,
};

fn handle(vao: u32, n: i32) -> VAOobj {
    VAOobj { vao, vbo: vao + 100, ibo: vao + 200, nbo: vao + 300, texbo: vao + 400, n }
}

#[test]
fn new_node_is_empty_and_has_no_handle() {
    let n = SceneNode::new();
    assert_eq!(n.node_type, SceneNodeType::Empty);
    assert_eq!(n.index_count, -1);
    assert_eq!(n.get_n_children(), 0);
    assert_eq!(n.texture_id, None);
    assert_eq!(n.vao, VAOobj::empty());
    assert!(n.name.is_empty());
}

#[test]
fn with_type_sets_the_kind() {
    let n = SceneNode::with_type(SceneNodeType::Skybox);
    assert_eq!(n.node_type, SceneNodeType::Skybox);
    assert_eq!(n.index_count, -1);
}

#[test]
fn from_vao_keeps_the_index_count() {
    for count in [3, 6, 1536, 393216] {
        let n = SceneNode::from_vao(handle(7, count));
        assert_eq!(n.node_type, SceneNodeType::Geometry);
        assert_eq!(n.index_count, count);
        assert_eq!(n.vao.vao, 7);
    }
}

#[test]
fn add_child_appends_in_order() {
    let mut n = SceneNode::new();
    n.add_child(4);
    n.add_child(2);
    assert_eq!(n.get_n_children(), 2);
    assert_eq!(n.get_child(0), 4);
    assert_eq!(n.get_child(1), 2);
}

#[test]
fn kind_codes_and_drawability() {
    assert_eq!(SceneNodeType::Geometry.code(), 0);
    assert_eq!(SceneNodeType::Skybox.code(), 1);
    assert_eq!(SceneNodeType::Geometry2d.code(), 2);
    assert_eq!(SceneNodeType::Planet.code(), 3);
    assert_eq!(SceneNodeType::Ocean.code(), 4);
    assert!(!SceneNodeType::LightSource.is_drawable());
    assert!(!SceneNodeType::Empty.is_drawable());
    assert!(SceneNodeType::Ocean.is_drawable());
}

#[test]
fn light_source_root_draws_only_its_child() {
    let mut g = SceneGraph::new();
    let light = g.add_node(SceneNode::with_type(SceneNodeType::LightSource));
    let geo = g.add_node(SceneNode::from_vao(handle(3, 36)));
    assert_eq!(g.attach(light, geo), Ok(()));
    let calls = g.draw_list(light).unwrap();
    assert_eq!(calls.len(), 1);
    assert_eq!(calls[0].node, geo);
    assert_eq!(calls[0].index_count, 36);
}

#[test]
fn empty_nodes_are_walked_through() {
    let mut g = SceneGraph::new();
    let root = g.add_node(SceneNode::new());
    let mid = g.add_node(SceneNode::new());
    let leaf = g.add_node(SceneNode::from_vao(handle(9, 6)));
    g.attach(mid, leaf).unwrap();
    g.attach(root, mid).unwrap();
    let calls = g.draw_list(root).unwrap();
    assert_eq!(calls.len(), 1);
    assert_eq!(calls[0].node, leaf);
}

#[test]
fn draw_calls_come_in_pre_order() {
    let mut g = SceneGraph::new();
    let a = g.add_node(SceneNode::from_vao(handle(1, 3)));
    let b = g.add_node(SceneNode::from_vao(handle(2, 3)));
    let c = g.add_node(SceneNode::from_vao(handle(3, 3)));
    let d = g.add_node(SceneNode::from_vao(handle(4, 3)));
    g.attach(a, b).unwrap();
    g.attach(b, c).unwrap();
    g.attach(a, d).unwrap();
    let order: Vec<usize> = g.draw_list(a).unwrap().iter().map(|c| c.node).collect();
    assert_eq!(order, vec![a, b, c, d]);
}

#[test]
fn screen_space_nodes_skip_the_camera() {
    let mut g = SceneGraph::new();
    let root = g.add_node(SceneNode::from_vao(handle(1, 6)));
    let mut hud = SceneNode::from_vao(handle(2, 6));
    hud.node_type = SceneNodeType::Geometry2d;
    let hud = g.add_node(hud);
    g.attach(root, hud).unwrap();
    let calls = g.draw_list(root).unwrap();
    assert!(calls[0].through_camera);
    assert!(!calls[1].through_camera);
    assert_eq!(calls[1].node_type, 2);
}

#[test]
fn texture_signal_differs_with_and_without_texture() {
    let mut g = SceneGraph::new();
    let root = g.add_node(SceneNode::from_vao(handle(1, 6)));
    let other = g.add_node(SceneNode::from_vao(handle(2, 6)));
    g.attach(root, other).unwrap();
    g.set_texture(root, Some(11));
    let calls = g.draw_list(root).unwrap();
    assert_eq!(
        calls[0],
        DrawCall {
            node: root,
            vao: 1,
            index_count: 6,
            node_type: 0,
            through_camera: true,
            texture_id: Some(11),
            has_texture: true,
        }
    );
    assert!(!calls[1].has_texture);
    assert_ne!(calls[0].has_texture, calls[1].has_texture);
}

#[test]
fn drawable_node_without_handle_is_refused() {
    let mut g = SceneGraph::new();
    let root = g.add_node(SceneNode::new());
    let bad = g.add_node(SceneNode::with_type(SceneNodeType::Geometry));
    g.attach(root, bad).unwrap();
    assert_eq!(g.draw_list(root), Err(SceneError::MissingHandle(bad)));
}

#[test]
fn set_node_type_changes_what_is_drawn() {
    let mut g = SceneGraph::new();
    let root = g.add_node(SceneNode::from_vao(handle(1, 6)));
    assert_eq!(g.draw_list(root).unwrap().len(), 1);
    g.set_node_type(root, SceneNodeType::Empty);
    assert_eq!(g.draw_list(root).unwrap().len(), 0);
    assert_eq!(g.node(root).node_type, SceneNodeType::Empty);
}

#[test]
fn attach_refuses_bad_indices() {
    let mut g = SceneGraph::new();
    let a = g.add_node(SceneNode::new());
    assert_eq!(g.attach(a, 5), Err(SceneError::NoSuchNode));
    assert_eq!(g.attach(5, a), Err(SceneError::NoSuchNode));
}

#[test]
fn attach_refuses_a_second_parent() {
    let mut g = SceneGraph::new();
    let a = g.add_node(SceneNode::new());
    let b = g.add_node(SceneNode::new());
    let c = g.add_node(SceneNode::new());
    g.attach(a, c).unwrap();
    assert_eq!(g.attach(b, c), Err(SceneError::AlreadyAttached));
    assert_eq!(g.parent(c), Some(a));
}

#[test]
fn attach_refuses_cycles() {
    let mut g = SceneGraph::new();
    let a = g.add_node(SceneNode::new());
    let b = g.add_node(SceneNode::new());
    let c = g.add_node(SceneNode::new());
    assert_eq!(g.attach(a, a), Err(SceneError::WouldCycle));
    g.attach(a, b).unwrap();
    g.attach(b, c).unwrap();
    assert_eq!(g.attach(c, a), Err(SceneError::WouldCycle));
    assert_eq!(g.root_of(c), a);
    assert_eq!(g.node(a).get_n_children(), 1);
}

#[test]
fn child_built_before_its_parent_can_be_attached() {
    let mut g = SceneGraph::new();
    let cube = g.add_node(SceneNode::from_vao(handle(1, 36)));
    let root = g.add_node(SceneNode::new());
    assert_eq!(g.attach(root, cube), Ok(()));
    assert_eq!(g.root_of(cube), root);
    assert_eq!(g.draw_list(root).unwrap().len(), 1);
}

#[test]
fn update_order_puts_parents_first() {
    let mut g = SceneGraph::new();
    let root = g.add_node(SceneNode::new());
    let a = g.add_node(SceneNode::new());
    let b = g.add_node(SceneNode::new());
    let c = g.add_node(SceneNode::new());
    g.attach(a, b).unwrap();
    g.attach(root, a).unwrap();
    g.attach(root, c).unwrap();
    let plan = g.update_order(root);
    assert_eq!(
        plan,
        vec![
            UpdateStep { node: root, parent_slot: None },
            UpdateStep { node: a, parent_slot: Some(0) },
            UpdateStep { node: b, parent_slot: Some(1) },
            UpdateStep { node: c, parent_slot: Some(0) },
        ]
    );
}

#[test]
fn update_order_of_a_subtree_starts_there() {
    let mut g = SceneGraph::new();
    let root = g.add_node(SceneNode::new());
    let a = g.add_node(SceneNode::new());
    let b = g.add_node(SceneNode::new());
    g.attach(root, a).unwrap();
    g.attach(a, b).unwrap();
    let plan = g.update_order(a);
    assert_eq!(plan.len(), 2);
    assert_eq!(plan[0], UpdateStep { node: a, parent_slot: None });
    assert_eq!(plan[1], UpdateStep { node: b, parent_slot: Some(0) });
}

#[test]
fn cubesphere_has_six_planet_faces() {
    let mut g = SceneGraph::new();
    let faces: Vec<VAOobj> = (0..6).map(|k| handle(10 + k, 6 * 256 * 256)).collect();
    let center = SceneNode::make_cubesphere(&mut g, &faces);
    assert_eq!(g.len(), 7);
    assert_eq!(g.node(center).node_type, SceneNodeType::Empty);
    assert_eq!(g.node(center).get_n_children(), 6);
    let calls = g.draw_list(center).unwrap();
    assert_eq!(calls.len(), 6);
    for (k, call) in calls.iter().enumerate() {
        assert_eq!(call.vao, 10 + k as u32);
        assert_eq!(call.node_type, 3);
        assert_eq!(call.index_count, 393216);
    }
}
