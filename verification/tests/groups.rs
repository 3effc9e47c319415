use lib::error::EngineError;
use lib::flags::{HIDDEN, STATE_DISABLED};
use lib::group::{RefocusPolicy, MAX_GROUPS};
use lib::groups::{focusable, Groups};
use lib::ids::{GroupId, NodeId};
use lib::obj::obj_class;
use lib::tree::Tree;

fn id(n: u16) -> NodeId {
    NodeId::from_raw((1 << 16) | n as u32)
}

#[test]
fn groups_reuse_free_slots_up_to_the_limit() {
    let mut gs = Groups::new();
    let a = gs.create_group().unwrap();
    let b = gs.create_group().unwrap();
    assert_eq!((a, b), (GroupId(0), GroupId(1)));
    assert!(gs.set_default_group(Some(a)));
    assert!(gs.remove_group(a).is_some());
    assert_eq!(gs.default_group, None);
    assert!(!gs.set_default_group(Some(a)));
    assert_eq!(gs.create_group().unwrap(), GroupId(0));
    for _ in 2..MAX_GROUPS {
        gs.create_group().unwrap();
    }
    assert_eq!(gs.create_group(), Err(EngineError::TooManyGroups));
    assert!(gs.remove_group(GroupId(99)).is_none());
}

#[test]
fn group_settings_and_focus() {
    let mut gs = Groups::new();
    let g = gs.create_group().unwrap();
    gs.slots[0].as_mut().unwrap().nodes = vec![id(1), id(2), id(3)];
    assert_eq!(gs.group_count(g), 3);
    assert_eq!(gs.group_nodes(g), vec![id(1), id(2), id(3)]);
    assert!(gs.set_focused(g, id(2)));
    assert!(!gs.set_focused(g, id(9)));
    assert_eq!(gs.focused(g), Some(id(2)));
    let all = vec![true, true, true];
    assert_eq!(gs.focus_step(g, true, &all), Some(2));
    assert_eq!(gs.focus_step(g, false, &all), Some(0));
    assert!(gs.set_wrap(g, false));
    assert!(gs.set_focused(g, id(3)));
    assert_eq!(gs.focus_step(g, true, &all), None);
    assert_eq!(gs.focus_step(g, true, &vec![true, true]), None);
    assert!(gs.focus_freeze(g, true));
    assert_eq!(gs.focus_step(g, false, &all), None);
    assert!(gs.set_refocus_policy(g, RefocusPolicy::Next));
    assert_eq!(gs.state(g).unwrap().refocus_policy, RefocusPolicy::Next);
    assert_eq!(gs.set_editing(g, true), Some(id(3)));
    assert!(gs.group_editing(g));
    assert_eq!(gs.set_editing(g, true), None);
    assert!(!gs.set_wrap(GroupId(5), true));
    assert_eq!(gs.focused(GroupId(5)), None);
}

#[test]
fn hidden_or_disabled_nodes_cannot_take_the_focus() {
    let mut t = Tree::new();
    let root = t.create(None, obj_class()).unwrap();
    let a = t.create(Some(root), obj_class()).unwrap();
    let b = t.create(Some(a), obj_class()).unwrap();
    assert!(focusable(&t, b));
    let mut n = t.node(a).unwrap();
    n.flags.set(HIDDEN, true);
    assert!(t.set_payload(a, n));
    assert!(!focusable(&t, b));
    assert!(!focusable(&t, a));
    assert!(focusable(&t, root));
    let mut n = t.node(root).unwrap();
    n.state.bits |= STATE_DISABLED;
    assert!(t.set_payload(root, n));
    assert!(!focusable(&t, root));
    assert!(!focusable(&t, NodeId::from_raw(1234)));
}

#[test]
fn add_member_appends_and_reports_the_first() {
    let mut gs = Groups::new();
    let g = gs.create_group().unwrap();
    assert_eq!(gs.add_member(g, id(4)), Some(true));
    assert_eq!(gs.add_member(g, id(2)), Some(false));
    assert_eq!(gs.group_nodes(g), vec![id(4), id(2)]);
    assert_eq!(gs.group_count(g), 2);
    assert_eq!(gs.add_member(GroupId(5), id(1)), None);
    assert_eq!(gs.focused(g), None);
}
