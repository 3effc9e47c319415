use lib::error::EngineError;
use lib::flags::{CLICKABLE, PRESS_LOCK, SCROLL_CHAIN, GESTURE_BUBBLE, HIDDEN, OVERFLOW_VISIBLE};
use lib::geom::Rect;
use lib::ids::NodeId;
use lib::obj::obj_class;
use lib::tree::Tree;
use lib::removal::{delete_steps, DeleteStep};

fn tree_with(n: usize) -> (Tree, NodeId, Vec<NodeId>) {
    let mut t = Tree::new();
    let root = t.create(None, obj_class()).unwrap();
    let kids = (0..n).map(|_| t.create(Some(root), obj_class()).unwrap()).collect();
    (t, root, kids)
}

#[test]
fn create_appends_in_order() {
    let (t, root, kids) = tree_with(3);
    assert_eq!(t.children(root), kids);
    assert_eq!(t.children_rev(root), kids.iter().rev().copied().collect::<Vec<_>>());
    assert_eq!(t.node(root).unwrap().child_count(), 3);
    assert_eq!(t.index(kids[2]), Some(2));
    assert_eq!(t.parent(kids[1]), Some(root));
    assert_eq!(t.roots(), vec![root]);
    assert!(t.node(kids[0]).unwrap().flags().contains(CLICKABLE));
    t.check_invariants().unwrap();
}

#[test]
fn create_under_missing_parent_fails() {
    let (mut t, _, kids) = tree_with(1);
    t.delete(kids[0]).unwrap();
    assert_eq!(t.create(Some(kids[0]), obj_class()), Err(EngineError::NodeNotFound(kids[0])));
}

#[test]
fn delete_subtree_frees_all_and_invalidates_ids() {
    let (mut t, root, kids) = tree_with(2);
    let gc = t.create(Some(kids[0]), obj_class()).unwrap();
    t.delete(kids[0]).unwrap();
    assert!(!t.contains(kids[0]) && !t.contains(gc));
    assert_eq!(t.len(), 2);
    // Slot reuse must not resurrect the old ids.
    let a = t.create(Some(root), obj_class()).unwrap();
    let b = t.create(Some(root), obj_class()).unwrap();
    assert!(!t.contains(kids[0]) && !t.contains(gc));
    assert!(a.index() == kids[0].index() || b.index() == kids[0].index() || a.index() == gc.index());
    assert_eq!(t.children(root), vec![kids[1], a, b]);
    t.check_invariants().unwrap();
    assert!(t.delete(kids[0]).is_err());
}

#[test]
fn delete_returns_post_order() {
    let (mut t, root, kids) = tree_with(2);
    let a = t.create(Some(kids[0]), obj_class()).unwrap();
    let b = t.create(Some(kids[0]), obj_class()).unwrap();
    let aa = t.create(Some(a), obj_class()).unwrap();
    let order = t.delete(root).unwrap();
    assert_eq!(order, vec![aa, a, b, kids[0], kids[1], root]);
    assert!(t.is_empty());
    assert_eq!(t.roots().len(), 0);
}

#[test]
fn move_to_changes_parent_and_index() {
    let (mut t, root, kids) = tree_with(3);
    t.move_to(kids[2], Some(kids[0]), None).unwrap();
    assert_eq!(t.parent(kids[2]), Some(kids[0]));
    assert_eq!(t.node(root).unwrap().child_count(), 2);
    t.move_to(kids[2], Some(root), Some(0)).unwrap();
    assert_eq!(t.children(root), vec![kids[2], kids[0], kids[1]]);
    t.move_to(kids[1], None, None).unwrap();
    assert_eq!(t.roots(), vec![root, kids[1]]);
    t.check_invariants().unwrap();
}

#[test]
fn move_into_own_subtree_is_rejected() {
    let (mut t, root, kids) = tree_with(1);
    let gc = t.create(Some(kids[0]), obj_class()).unwrap();
    assert_eq!(t.move_to(root, Some(gc), None), Err(EngineError::InvalidConfig("cycle")));
    assert_eq!(t.move_to(kids[0], Some(kids[0]), None), Err(EngineError::InvalidConfig("cycle")));
    t.check_invariants().unwrap();
}

#[test]
fn set_index_and_negative_child_index() {
    let (mut t, root, kids) = tree_with(4);
    t.set_index(kids[3], 1).unwrap();
    assert_eq!(t.children(root), vec![kids[0], kids[3], kids[1], kids[2]]);
    assert_eq!(t.child(root, 0), Some(kids[0]));
    assert_eq!(t.child(root, -1), Some(kids[2]));
    assert_eq!(t.child(root, -4), Some(kids[0]));
    assert_eq!(t.child(root, -5), None);
    assert_eq!(t.child(root, 4), None);
    t.set_index(kids[0], 99).unwrap();
    assert_eq!(t.child(root, -1), Some(kids[0]));
    t.check_invariants().unwrap();
}

#[test]
fn swap_across_parents() {
    let (mut t, root, kids) = tree_with(3);
    let x = t.create(Some(kids[0]), obj_class()).unwrap();
    let y = t.create(Some(kids[0]), obj_class()).unwrap();
    t.swap(kids[1], y).unwrap();
    assert_eq!(t.children(root), vec![kids[0], y, kids[2]]);
    assert_eq!(t.children(kids[0]), vec![x, kids[1]]);
    // Same parent, both orders.
    t.swap(kids[0], kids[2]).unwrap();
    assert_eq!(t.children(root), vec![kids[2], y, kids[0]]);
    t.swap(kids[0], kids[2]).unwrap();
    assert_eq!(t.children(root), vec![kids[0], y, kids[2]]);
    assert!(t.swap(kids[0], x).is_err());
    t.check_invariants().unwrap();
}

#[test]
fn ancestors_and_root_of() {
    let (mut t, root, kids) = tree_with(1);
    let gc = t.create(Some(kids[0]), obj_class()).unwrap();
    assert_eq!(t.ancestors(gc), vec![kids[0], root]);
    assert_eq!(t.root_of(gc), Some(root));
    assert_eq!(t.root_of(root), Some(root));
}

#[test]
fn dump_lists_every_node_indented() {
    let (mut t, root, kids) = tree_with(2);
    let mut n = t.node(kids[0]).unwrap();
    n.coords = Rect::new(1, 2, 3, 4);
    assert!(t.replace_node(kids[0], n));
    let s = t.dump(root);
    let lines: Vec<&str> = s.lines().collect();
    assert_eq!(lines.len(), 3);
    assert!(lines[0].starts_with("obj n0g1 [0,0 → 0,0] state=- flags=CLICKABLE"), "{}", lines[0]);
    assert!(lines[1].starts_with("  obj n1g1 [1,2 → 3,4]"), "{}", lines[1]);
}

#[test]
fn invariant_checker_detects_corruption() {
    let (mut t, root, kids) = tree_with(2);
    let mut r = t.node(root).unwrap();
    r.child_count = 5;
    t.replace_node(root, r);
    assert!(t.check_invariants().is_err());
    r.child_count = 2;
    t.replace_node(root, r);
    let mut k = t.node(kids[1]).unwrap();
    k.prev = None;
    t.replace_node(kids[1], k);
    let e = t.check_invariants().unwrap_err();
    assert_eq!(e.node, kids[1]);
}

#[test]
fn roots_and_children_get_the_class_flags() {
    let (t, root, kids) = tree_with(1);
    assert_eq!(t.node(root).unwrap().flags(), obj_class().default_flags);
    assert!(t.node(root).unwrap().flags().contains(PRESS_LOCK | SCROLL_CHAIN | GESTURE_BUBBLE));
    assert_eq!(t.node(kids[0]).unwrap().flags(), obj_class().default_flags);
}

#[test]
fn failed_create_leaves_the_tree_as_it_was() {
    let (mut t, root, kids) = tree_with(1);
    t.delete(kids[0]).unwrap();
    assert_eq!(t.create(Some(kids[0]), obj_class()), Err(EngineError::NodeNotFound(kids[0])));
    assert_eq!(t.len(), 1);
    assert_eq!(t.children(root).len(), 0);
    assert_eq!(t.roots(), vec![root]);
}

#[test]
fn descendants_are_in_pre_order() {
    let (mut t, root, kids) = tree_with(2);
    let a = t.create(Some(kids[0]), obj_class()).unwrap();
    let b = t.create(Some(a), obj_class()).unwrap();
    assert_eq!(t.descendants(root), vec![root, kids[0], a, b, kids[1]]);
    assert_eq!(t.descendants(a), vec![a, b]);
    t.delete(a).unwrap();
    assert!(t.descendants(a).is_empty());
}

#[test]
fn move_before_a_sibling() {
    let (mut t, root, kids) = tree_with(3);
    t.move_before(kids[2], root, Some(kids[0])).unwrap();
    assert_eq!(t.children(root), vec![kids[2], kids[0], kids[1]]);
    assert!(t.move_before(kids[0], root, Some(kids[0])).is_ok());
    assert_eq!(t.move_before(root, kids[1], None), Err(EngineError::InvalidConfig("cycle")));
    t.check_invariants().unwrap();
}

#[test]
fn a_deleted_handle_stays_dead_after_slot_reuse() {
    let (mut t, root, kids) = tree_with(1);
    let old = kids[0];
    t.delete(old).unwrap();
    let again = t.create(Some(root), obj_class()).unwrap();
    assert_eq!(again.index(), old.index());
    assert_ne!(again, old);
    assert!(!t.contains(old));
    t.move_to(again, None, None).unwrap();
    assert!(!t.contains(old));
}

#[test]
fn swapping_twice_restores_the_order() {
    let (mut t, root, kids) = tree_with(3);
    let x = t.create(Some(kids[0]), obj_class()).unwrap();
    let before = (t.children(root), t.children(kids[0]));
    t.swap(kids[2], x).unwrap();
    t.swap(kids[2], x).unwrap();
    assert_eq!((t.children(root), t.children(kids[0])), before);
    t.move_to(kids[0], Some(root), Some(99)).unwrap();
    assert_eq!(t.index(kids[0]), Some(2));
}

#[test]
fn visible_part_is_clipped_by_the_ancestors() {
    let (mut t, root, kids) = tree_with(1);
    let gc = t.create(Some(kids[0]), obj_class()).unwrap();
    let place = |t: &mut Tree, id: NodeId, r: Rect, flags: u32, on: bool| {
        let mut n = t.node(id).unwrap();
        n.coords = r;
        n.flags.set(flags, on);
        assert!(t.replace_node(id, n));
    };
    place(&mut t, root, Rect::new(0, 0, 100, 100), 0, true);
    place(&mut t, kids[0], Rect::new(50, 50, 150, 150), 0, true);
    place(&mut t, gc, Rect::new(60, 60, 200, 200), 0, true);
    assert_eq!(t.visible_part(gc, Rect::new(60, 60, 200, 200)), Some((root, Rect::new(60, 60, 100, 100))));
    assert_eq!(t.visible_part(root, Rect::new(-5, -5, 5, 5)), Some((root, Rect::new(-5, -5, 5, 5))));
    assert_eq!(t.visible_part(gc, Rect::new(0, 0, 40, 40)), None);
    assert_eq!(t.visible_part(gc, Rect::new(70, 70, 70, 80)), None);
    // A child that lets its content overflow does not clip.
    place(&mut t, kids[0], Rect::new(50, 50, 150, 150), OVERFLOW_VISIBLE, true);
    assert_eq!(t.visible_part(gc, Rect::new(40, 40, 90, 90)), Some((root, Rect::new(40, 40, 90, 90))));
    place(&mut t, kids[0], Rect::new(50, 50, 150, 150), HIDDEN, true);
    assert_eq!(t.visible_part(gc, Rect::new(60, 60, 70, 70)), None);
}

#[test]
fn deleting_a_node_tells_the_subtree_then_frees_it() {
    let (mut t, root, kids) = tree_with(2);
    assert_eq!(delete_steps(&t, root, true), Err(EngineError::InvalidConfig("cannot delete a layer or the active screen")));
    let steps = delete_steps(&t, kids[0], false).unwrap();
    assert_eq!(steps, vec![DeleteStep::SendDelete(kids[0]), DeleteStep::EndUnlessAlive(kids[0]),
        DeleteStep::LeaveGroup(kids[0]), DeleteStep::EndUnlessAlive(kids[0]), DeleteStep::Free(kids[0]),
        DeleteStep::NotifyParent(kids[0])]);
    let all = delete_steps(&t, root, false).unwrap();
    assert_eq!(&all[..3], &[DeleteStep::SendDelete(kids[0]), DeleteStep::SendDelete(kids[1]), DeleteStep::SendDelete(root)]);
    assert_eq!(t.post_order(root), vec![kids[0], kids[1], root]);
    t.delete(kids[1]).unwrap();
    assert_eq!(delete_steps(&t, kids[1], false), Err(EngineError::NodeNotFound(kids[1])));
}
