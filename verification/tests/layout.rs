use lib::flag_change::{set_flag_steps, FlagStep};
use lib::flags::{ObjFlags, CLICKABLE, HIDDEN, LAYOUT_CHILDREN, LAYOUT_PASSTHROUGH, LAYOUT_SELF, OVERFLOW_VISIBLE, SCROLLABLE};
use lib::ids::NodeId;
use lib::geom::Rect;
use lib::layout::{layout_owner, mark_layout, move_redraw, place};
use lib::obj::obj_class;
use lib::tree::Tree;

fn marks(t: &Tree, id: NodeId) -> u8 {
    t.node(id).unwrap().layout_dirty.bits
}

fn chain3() -> (Tree, NodeId, NodeId, NodeId) {
    let mut t = Tree::new();
    let r = t.create(None, obj_class()).unwrap();
    let a = t.create(Some(r), obj_class()).unwrap();
    let c = t.create(Some(a), obj_class()).unwrap();
    (t, r, a, c)
}

#[test]
fn marking_self_marks_the_parent_children() {
    let (mut t, r, a, c) = chain3();
    let forget = mark_layout(&mut t, c, LAYOUT_SELF, &vec![false, false, false]);
    assert_eq!((marks(&t, c), marks(&t, a), marks(&t, r)), (1, 2, 4));
    assert_eq!(forget, vec![a, a]);
    t.check_invariants().unwrap();
}

#[test]
fn content_sized_parents_are_marked_too() {
    let (mut t, r, a, c) = chain3();
    let forget = mark_layout(&mut t, c, LAYOUT_SELF, &vec![false, true, false]);
    assert_eq!((marks(&t, c), marks(&t, a), marks(&t, r)), (1, 3, 2));
    assert_eq!(forget, vec![a, a, r, r]);
    // A root is never content-sized.
    let (mut t, r, _, c) = chain3();
    mark_layout(&mut t, c, LAYOUT_SELF, &vec![false, true, true]);
    assert_eq!(marks(&t, r), 2);
}

#[test]
fn descendant_marks_stop_at_the_first_ancestor_that_knows() {
    let (mut t, r, a, c) = chain3();
    let d = t.create(Some(c), obj_class()).unwrap();
    let e = t.create(Some(c), obj_class()).unwrap();
    let forget = mark_layout(&mut t, d, LAYOUT_CHILDREN, &vec![false; 4]);
    assert_eq!(forget, vec![d]);
    assert_eq!((marks(&t, d), marks(&t, c), marks(&t, a), marks(&t, r)), (2, 4, 4, 4));
    let mut n = t.node(a).unwrap();
    n.layout_dirty.bits = 0;
    assert!(t.set_payload(a, n));
    mark_layout(&mut t, e, LAYOUT_CHILDREN, &vec![false; 4]);
    assert_eq!((marks(&t, e), marks(&t, c), marks(&t, a)), (2, 4, 0));
    assert!(mark_layout(&mut t, NodeId::from_raw(99), LAYOUT_SELF, &vec![]).is_empty());
}

#[test]
fn wrappers_are_laid_out_by_their_parent() {
    let (mut t, r, a, c) = chain3();
    let w = t.create(Some(c), obj_class()).unwrap();
    let mut n = t.node(w).unwrap();
    n.flags.set(LAYOUT_PASSTHROUGH, true);
    assert!(t.set_payload(w, n));
    assert_eq!(layout_owner(&t, w), c);
    assert_eq!(layout_owner(&t, a), a);
    // A wrapper whose children changed is laid out with its parent.
    let forget = mark_layout(&mut t, w, LAYOUT_CHILDREN, &vec![false; 4]);
    assert_eq!(marks(&t, w), 3);
    assert_eq!(marks(&t, c), 2);
    assert_eq!(forget, vec![w, c, c]);
    for x in [r, a, c] {
        let mut n = t.node(x).unwrap();
        n.flags.set(LAYOUT_PASSTHROUGH, true);
        assert!(t.set_payload(x, n));
    }
    assert_eq!(layout_owner(&t, w), r);
    assert_eq!(layout_owner(&t, NodeId::from_raw(77)), NodeId::from_raw(77));
}

#[test]
fn flag_changes_redraw_and_relayout() {
    let f = |b: u32| ObjFlags::from_bits(b);
    assert_eq!(set_flag_steps(f(0), HIDDEN, true),
        vec![FlagStep::InvalidateSubtree, FlagStep::Write(f(HIDDEN)), FlagStep::RelayoutParent]);
    assert_eq!(set_flag_steps(f(HIDDEN), HIDDEN, false),
        vec![FlagStep::Write(f(0)), FlagStep::InvalidateSubtree, FlagStep::RelayoutParent]);
    assert_eq!(set_flag_steps(f(0), SCROLLABLE, true),
        vec![FlagStep::Write(f(SCROLLABLE)), FlagStep::RedrawScrollbars { before: f(0), after: f(SCROLLABLE) }]);
    assert_eq!(set_flag_steps(f(0), OVERFLOW_VISIBLE, true),
        vec![FlagStep::Write(f(OVERFLOW_VISIBLE)), FlagStep::InvalidateSubtree]);
    assert_eq!(set_flag_steps(f(OVERFLOW_VISIBLE), OVERFLOW_VISIBLE, false),
        vec![FlagStep::InvalidateSubtree, FlagStep::Write(f(0))]);
    assert_eq!(set_flag_steps(f(CLICKABLE), CLICKABLE, true), vec![]);
    assert_eq!(set_flag_steps(f(0), CLICKABLE, true), vec![FlagStep::Write(f(CLICKABLE))]);
}

#[test]
fn small_moves_redraw_one_rectangle() {
    let a = Rect::new(0, 0, 10, 10);
    assert_eq!(move_redraw(a, Rect::new(2, 0, 12, 10)), (Rect::new(0, 0, 12, 10), None));
    // Far apart: both areas on their own.
    assert_eq!(move_redraw(a, Rect::new(50, 50, 60, 60)), (a, Some(Rect::new(50, 50, 60, 60))));
    // Overlapping, but the hull is more than twice their size.
    let thin = Rect::new(0, 0, 100, 1);
    let tall = Rect::new(0, 0, 1, 100);
    assert_eq!(move_redraw(thin, tall), (thin, Some(tall)));
}

#[test]
fn placing_a_node_moves_its_subtree() {
    let (mut t, r, a, c) = chain3();
    let d = t.create(Some(c), obj_class()).unwrap();
    for (x, rect) in [(r, Rect::new(0, 0, 100, 100)), (a, Rect::new(10, 10, 50, 50)), (c, Rect::new(12, 14, 20, 30)),
        (d, Rect::new(13, 15, 14, 16))] {
        let mut n = t.node(x).unwrap();
        n.coords = rect;
        assert!(t.set_payload(x, n));
    }
    assert_eq!(place(&mut t, a, Rect::new(20, 5, 70, 45)), Some(Rect::new(10, 10, 50, 50)));
    assert_eq!(t.node(a).unwrap().coords, Rect::new(20, 5, 70, 45));
    assert_eq!(t.node(c).unwrap().coords, Rect::new(22, 9, 30, 25));
    assert_eq!(t.node(d).unwrap().coords, Rect::new(23, 10, 24, 11));
    assert_eq!(t.node(r).unwrap().coords, Rect::new(0, 0, 100, 100));
    assert_eq!(place(&mut t, a, Rect::new(20, 5, 70, 45)), None);
    assert_eq!(place(&mut t, NodeId::from_raw(4321), Rect::new(0, 0, 1, 1)), None);
    t.check_invariants().unwrap();
}
