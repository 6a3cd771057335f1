use sher_display::common::ObjectId;
use sher_display::scene::{NodeKind, Rect, SceneGraph, SceneNode};

#[test]
fn z_order_sorts_back_to_front() {
    let mut graph = SceneGraph::new();
    let output = ObjectId::from_raw(7_001);

    let mut back = SceneNode::new(NodeKind::Wallpaper);
    back.z_order = 0;
    back.output_id = Some(output);
    let back_id = graph.insert(back);

    let mut front = SceneNode::new(NodeKind::Window);
    front.z_order = 10;
    front.output_id = Some(output);
    let front_id = graph.insert(front);

    let ordered = graph.z_ordered_for_output(&output);
    assert_eq!(ordered[0].id, back_id);
    assert_eq!(ordered[1].id, front_id);
}

#[test]
fn damage_accumulates_via_union() {
    let mut graph = SceneGraph::new();
    let node = SceneNode::new(NodeKind::Window);
    let id = graph.insert(node);

    graph.mark_damage(&id, Rect::new(0, 0, 10, 10)).unwrap();
    graph.mark_damage(&id, Rect::new(5, 5, 10, 10)).unwrap();

    let damage = graph.get(&id).unwrap().damage.unwrap();
    assert_eq!(damage, Rect::new(0, 0, 15, 15));
}

#[test]
fn hidden_nodes_excluded_from_composition() {
    let mut graph = SceneGraph::new();
    let output = ObjectId::from_raw(7_002);
    let mut node = SceneNode::new(NodeKind::Notification);
    node.output_id = Some(output);
    node.visible = false;
    graph.insert(node);

    assert!(graph.z_ordered_for_output(&output).is_empty());
}

#[test]
fn union_is_commutative_and_covers_both() {
    let a = Rect::new(-5, 2, 10, 3);
    let b = Rect::new(1, -4, 2, 20);
    assert_eq!(a.union(&b), b.union(&a));
    assert_eq!(a.union(&b), Rect::new(-5, -4, 10, 20));
    assert_eq!(a.union(&a), a);
}

#[test]
fn insert_assigns_fresh_ids_and_remove_forgets_them() {
    let mut graph = SceneGraph::new();
    let a = graph.insert(SceneNode::new(NodeKind::Window));
    let b = graph.insert(SceneNode::new(NodeKind::Panel));
    assert_ne!(a, b);
    assert_eq!(graph.get(&a).unwrap().id, a);
    assert_eq!(graph.len(), 2);
    graph.remove(&a).unwrap();
    assert!(graph.get(&a).is_none());
    assert!(graph.remove(&a).is_err());
    assert_eq!(graph.len(), 1);
}

#[test]
fn damage_on_missing_node_errors_and_clear_damage_resets() {
    let mut graph = SceneGraph::new();
    let output = ObjectId::from_raw(7_003);
    assert!(graph.mark_damage(&ObjectId::from_raw(424_242), Rect::new(0, 0, 1, 1)).is_err());
    let mut node = SceneNode::new(NodeKind::Window);
    node.output_id = Some(output);
    let id = graph.insert(node);
    assert!(!graph.has_damage(&output));
    graph.mark_damage(&id, Rect::new(0, 0, 1, 1)).unwrap();
    assert!(graph.has_damage(&output));
    graph.clear_damage(&id);
    assert!(!graph.has_damage(&output));
}

#[test]
fn equal_depths_keep_insertion_order() {
    let mut graph = SceneGraph::new();
    let output = ObjectId::from_raw(7_004);
    let mut ids = Vec::new();
    for z in [3, 1, 3, 1, 2] {
        let mut n = SceneNode::new(NodeKind::Window);
        n.z_order = z;
        n.output_id = Some(output);
        ids.push(graph.insert(n));
    }
    let ordered: Vec<ObjectId> = graph.z_ordered_for_output(&output).iter().map(|n| n.id).collect();
    assert_eq!(ordered, vec![ids[1], ids[3], ids[4], ids[0], ids[2]]);
}

#[test]
fn reinserting_a_node_replaces_it() {
    let mut graph = SceneGraph::new();
    let id = graph.insert(SceneNode::new(NodeKind::Window));
    let mut node = *graph.get(&id).unwrap();
    node.z_order = 7;
    assert_eq!(graph.insert(node), id);
    assert_eq!(graph.len(), 1);
    assert_eq!(graph.get(&id).unwrap().z_order, 7);
}
