use lib::event::{EventCode, EventResult, Key, Event, EventParam};
use lib::geom::Rect;
use lib::gridnav::{find_child, key_move, quarter, ChildGeom, Find, GridnavCtrl, KeyMove, GRIDNAV_ROLLOVER,
    GRIDNAV_SCROLL_FIRST, grid_event, key_finish, key_target, GridAction, GridEvent};
use lib::group::{focus_search, GroupState, RefocusPolicy};
use lib::handlers::{HandlerIds, CodeRegistry, EventFilter, HandlerList, after_widget, after_handler, bubble_to, dispatch_result,
    dispatch_begin, dispatch_step, DispatchAction, DispatchEvent};
use lib::ids::{HandlerId, NodeId};
use lib::obj::{obj_event, ObjCtx, ObjOp};
use lib::flags::{CHECKABLE, SCROLLABLE, SCROLL_WITH_ARROW, SCROLL_ON_FOCUS, STATE_PRESSED, STATE_CHECKED,
    STATE_FOCUSED, STATE_FOCUS_KEY, STATE_EDITED};
use lib::style_list::{StyleList, StyleEntry, EntryKind};

fn id(n: u16) -> NodeId {
    NodeId::from_raw((1 << 16) | n as u32)
}

#[test]
fn focus_moves_to_the_next_focusable_node() {
    let f = vec![true, false, true, true];
    assert_eq!(focus_search(&f, Some(0), true, true), Some(2));
    assert_eq!(focus_search(&f, Some(3), true, true), Some(0));
    assert_eq!(focus_search(&f, Some(3), true, false), None);
    assert_eq!(focus_search(&f, Some(2), false, true), Some(0));
    assert_eq!(focus_search(&f, Some(0), false, true), Some(3));
    assert_eq!(focus_search(&f, Some(0), false, false), None);
    assert_eq!(focus_search(&f, None, true, false), Some(0));
    assert_eq!(focus_search(&f, None, false, false), Some(3));
    assert_eq!(focus_search(&vec![false, true], Some(1), true, true), None);
    assert_eq!(focus_search(&vec![], None, true, true), None);
}

#[test]
fn group_members() {
    let mut g = GroupState::new();
    assert!(g.wrap && !g.editing && g.refocus_policy == RefocusPolicy::Prev);
    g.nodes = vec![id(1), id(2), id(1), id(3)];
    assert_eq!(g.position(id(3)), Some(3));
    assert_eq!(g.position(id(9)), None);
    g.remove_member(id(1));
    assert_eq!(g.nodes, vec![id(2), id(3)]);
}

fn child(n: u16, x: i32, y: i32) -> ChildGeom {
    ChildGeom { id: id(n), focusable: true, coords: Rect::from_xywh(x, y, 40, 40) }
}

#[test]
fn gridnav_finds_the_nearest_child() {
    // Two rows of three.
    let ch = vec![child(1, 0, 0), child(2, 50, 0), child(3, 100, 0), child(4, 0, 50), child(5, 50, 50), child(6, 100, 50)];
    let cont = Rect::new(0, 0, 140, 90);
    let s = ch[1].coords;
    assert_eq!(find_child(&ch, id(2), s, cont, 0, 0, Find::Right), Some(id(3)));
    assert_eq!(find_child(&ch, id(2), s, cont, 0, 0, Find::Left), Some(id(1)));
    assert_eq!(find_child(&ch, id(2), s, cont, 0, 0, Find::Bottom), Some(id(5)));
    assert_eq!(find_child(&ch, id(2), s, cont, 0, 0, Find::Top), None);
    assert_eq!(find_child(&ch, id(3), ch[2].coords, cont, 0, 0, Find::Right), None);
    assert_eq!(find_child(&ch, id(3), ch[2].coords, cont, 0, 0, Find::NextRowFirst), Some(id(4)));
    assert_eq!(find_child(&ch, id(4), ch[3].coords, cont, 0, 0, Find::PrevRowLast), Some(id(3)));
    assert_eq!(find_child(&ch, id(5), ch[4].coords, cont, 0, 0, Find::FirstRow), Some(id(2)));
    assert_eq!(find_child(&ch, id(2), ch[1].coords, cont, 0, 0, Find::LastRow), Some(id(5)));
}

#[test]
fn gridnav_key_decisions() {
    let roll = GridnavCtrl { bits: GRIDNAV_ROLLOVER };
    assert_eq!(key_move(Key::Right, roll, false, 0, 0, 0, 0, 1, 1),
        KeyMove::Find { primary: Find::Right, secondary: Some(Find::NextRowFirst), fallback: Some(true), group_forward: None });
    assert_eq!(key_move(Key::Up, GridnavCtrl::default(), false, 0, 0, 0, 0, 1, 1),
        KeyMove::Find { primary: Find::Top, secondary: None, fallback: None, group_forward: Some(false) });
    let sf = GridnavCtrl { bits: GRIDNAV_SCROLL_FIRST };
    assert_eq!(key_move(Key::Down, sf, true, 0, 0, 5, 0, 10, 12), KeyMove::Scroll(0, -12));
    assert_eq!(key_move(Key::Enter, roll, false, 0, 0, 0, 0, 1, 1), KeyMove::Forward);
    assert_eq!(quarter(40), 10);
    assert_eq!(quarter(3), 1);
}

#[test]
fn handlers_run_in_order_and_can_be_removed() {
    let mut h = HandlerList::new();
    h.add(HandlerId(1), EventFilter::All);
    h.add(HandlerId(2), EventFilter::Code(EventCode::Clicked));
    h.add(HandlerId(3), EventFilter::All);
    let limit = HandlerId(4);
    assert_eq!(h.take_next(None, limit, EventCode::Pressed), Some(HandlerId(1)));
    // Running handlers are skipped.
    assert_eq!(h.take_next(None, limit, EventCode::Pressed), Some(HandlerId(3)));
    assert_eq!(h.take_next(None, limit, EventCode::Pressed), None);
    assert!(h.put_back(HandlerId(1)));
    assert!(!h.put_back(HandlerId(1)));
    assert_eq!(h.take_next(Some(HandlerId(1)), limit, EventCode::Clicked), Some(HandlerId(2)));
    assert!(h.remove(HandlerId(2)));
    assert!(!h.put_back(HandlerId(2)));
    assert!(!h.remove(HandlerId(2)));
    assert_eq!(h.len(), 2);
    assert_eq!(h.take_next(None, HandlerId(1), EventCode::Pressed), None);
    assert!(EventFilter::Code(EventCode::Clicked).matches(EventCode::Clicked));
    assert!(!EventFilter::Code(EventCode::Clicked).matches(EventCode::Pressed));
}

#[test]
fn dispatch_decisions() {
    assert_eq!(after_widget(EventResult::Consumed, false, false), (true, false));
    assert_eq!(after_widget(EventResult::Stop, false, false), (false, true));
    assert_eq!(after_widget(EventResult::Continue, true, true), (true, true));
    assert_eq!(after_handler(false, EventResult::Continue, false, false), (false, false));
    assert_eq!(after_handler(false, EventResult::Stop, false, false), (true, false));
    assert_eq!(after_handler(true, EventResult::Consumed, false, false), (true, true));
    let p = Some(id(1));
    assert_eq!(bubble_to(EventCode::Clicked, true, p), p);
    assert_eq!(bubble_to(EventCode::Clicked, false, p), None);
    assert_eq!(bubble_to(EventCode::ChildCreated, false, p), p);
    assert_eq!(bubble_to(EventCode::DrawMain, true, p), None);
    assert_eq!(dispatch_result(true, true), EventResult::Consumed);
    assert_eq!(dispatch_result(false, true), EventResult::Stop);
    assert_eq!(dispatch_result(false, false), EventResult::Continue);
}

#[test]
fn event_codes_classify() {
    assert!(EventCode::Clicked.is_input());
    assert!(EventCode::DrawMain.is_draw());
    assert!(!EventCode::ValueChanged.is_input());
    assert_eq!(EventCode::SizeChanged.bubbles(), Some(false));
    assert_eq!(EventCode::ChildDeleted.bubbles(), Some(true));
    assert_eq!(EventCode::Custom(3).bubbles(), None);
    let ev = Event { code: EventCode::Key, target: id(1), current_target: id(1), param: EventParam::Key(Key::Esc) };
    assert_eq!(ev.key(), Some(Key::Esc));
    assert_eq!(ev.value(), None);
}

fn ctx(flags: u32, state: u16) -> ObjCtx {
    ObjCtx { flags, state, scrolled: false, editable: false, editing: false, key_input: true, can_scroll_hor: false,
        width: 100, height: 40, scroll_x: 0, scroll_y: 20, active_scrollbar: false, snapping: false }
}

#[test]
fn base_object_behaviour() {
    assert_eq!(obj_event(EventCode::Pressed, None, &ctx(0, 0)), vec![ObjOp::AddState(STATE_PRESSED)]);
    assert_eq!(obj_event(EventCode::Released, None, &ctx(CHECKABLE, 0)),
        vec![ObjOp::ClearState(STATE_PRESSED), ObjOp::AddState(STATE_CHECKED), ObjOp::ValueChanged]);
    assert_eq!(obj_event(EventCode::Key, Some(Key::Left), &ctx(CHECKABLE, STATE_CHECKED)),
        vec![ObjOp::ClearState(STATE_CHECKED), ObjOp::ValueChanged]);
    assert_eq!(obj_event(EventCode::Key, Some(Key::Up), &ctx(CHECKABLE, STATE_CHECKED)), vec![ObjOp::AddState(STATE_CHECKED)]);
    assert_eq!(obj_event(EventCode::Key, Some(Key::Down), &ctx(SCROLLABLE | SCROLL_WITH_ARROW, 0)), vec![ObjOp::ScrollToY(30)]);
    assert_eq!(obj_event(EventCode::Focused, None, &ctx(SCROLL_ON_FOCUS, 0)),
        vec![ObjOp::ScrollIntoView, ObjOp::AddState(STATE_FOCUSED | STATE_FOCUS_KEY), ObjOp::ClearState(STATE_EDITED)]);
    assert_eq!(obj_event(EventCode::Defocused, None, &ctx(0, 0)),
        vec![ObjOp::ClearState(STATE_FOCUSED | STATE_EDITED | STATE_FOCUS_KEY)]);
}

#[test]
fn insert_keeps_priority_order() {
    let (a, b) = (1u32, 2u32);
    let main = 0u32;
    let mut l = StyleList::new();
    l.insert(StyleEntry { kind: EntryKind::Theme, selector: main, style: a });
    l.insert(StyleEntry { kind: EntryKind::Normal, selector: main, style: a });
    l.insert(StyleEntry { kind: EntryKind::Normal, selector: main, style: b });
    l.insert(StyleEntry { kind: EntryKind::Theme, selector: main, style: b });
    let local = l.local_or_insert(main, 99);
    l.insert(StyleEntry { kind: EntryKind::Transition, selector: main, style: a });
    let kinds: Vec<EntryKind> = l.entries.iter().map(|e| e.kind).collect();
    assert_eq!(kinds, [EntryKind::Transition, EntryKind::Local, EntryKind::Normal, EntryKind::Normal, EntryKind::Theme,
        EntryKind::Theme]);
    // Latest added normal/theme first.
    assert_eq!(l.entries[2].style, b);
    assert_eq!(l.entries[4].style, b);
    assert_eq!(local, 0);
    assert_eq!(l.local(main), Some(1));
    assert!(l.local(0x20).is_none());
    assert_eq!(l.remove_style(a), 3);
    assert_eq!(l.len(), 3);
}

#[test]
fn focus_step_back_returns() {
    let f = vec![true, false, true, false, true];
    for c in [0usize, 2, 4] {
        for wrap in [true, false] {
            if let Some(i) = focus_search(&f, Some(c), true, wrap) {
                assert_eq!(focus_search(&f, Some(i), false, wrap), Some(c));
            }
        }
    }
}

#[test]
fn removing_a_handler_undoes_adding_it() {
    let mut h = HandlerList::new();
    h.add(HandlerId(1), EventFilter::All);
    let before = h.list.clone();
    h.add(HandlerId(2), EventFilter::Code(EventCode::Clicked));
    assert!(h.remove(HandlerId(2)));
    assert_eq!(h.list, before);
    assert!(!h.remove(HandlerId(2)));
    assert!(!h.put_back(HandlerId(2)));
}

/// Runs a dispatch of `Clicked` on a root node `n` with the library's step function: the
/// widget logs "class", the handlers log their names, `remove_self` removes itself and
/// `delete` deletes the node while it runs.
fn send_clicked(h: &mut HandlerList, n: NodeId, limit: HandlerId, log: &mut Vec<&'static str>,
    remove_self: Option<HandlerId>, delete: Option<HandlerId>) -> EventResult {
    let mut s = dispatch_begin(n, EventCode::Clicked, limit);
    let mut ev = DispatchEvent::Start { alive: true };
    loop {
        let (next, action) = dispatch_step(&s, ev);
        s = next;
        ev = match action {
            DispatchAction::RunObject(_) => DispatchEvent::ObjectDone { alive: true },
            DispatchAction::RunWidget(_) => {
                log.push("class");
                DispatchEvent::WidgetDone { alive: true, result: EventResult::Continue, stop_bubbling: false, prevent_default: false }
            },
            DispatchAction::RunHandler { after, limit, .. } => match h.take_next(after, limit, EventCode::Clicked) {
                Some(id) => {
                    log.push(if id == HandlerId(0) { "first" } else { "second" });
                    if remove_self == Some(id) {
                        assert!(h.remove(id));
                    }
                    h.put_back(id);
                    DispatchEvent::HandlerDone { id, alive: delete != Some(id), result: EventResult::Continue,
                        stop_bubbling: false, prevent_default: false }
                },
                None => DispatchEvent::NoHandler,
            },
            DispatchAction::AskParent(_) => DispatchEvent::Parent { parent: None, bubble_flag: false },
            DispatchAction::Finish(r) => return r,
        };
    }
}

#[test]
fn dispatch_order_and_self_removal() {
    let n = id(1);
    let mut h = HandlerList::new();
    h.add(HandlerId(0), EventFilter::All);
    h.add(HandlerId(1), EventFilter::Code(EventCode::Clicked));
    let mut log = Vec::new();
    assert_eq!(send_clicked(&mut h, n, HandlerId(2), &mut log, Some(HandlerId(1)), None), EventResult::Continue);
    assert_eq!(send_clicked(&mut h, n, HandlerId(2), &mut log, Some(HandlerId(1)), None), EventResult::Continue);
    assert_eq!(log, vec!["class", "first", "second", "class", "first"]);
    assert_eq!(h.len(), 1);
    assert!(h.remove(HandlerId(0)));
    assert!(!h.remove(HandlerId(0)));
}

#[test]
fn deleting_target_in_handler_stops() {
    let mut h = HandlerList::new();
    h.add(HandlerId(0), EventFilter::All);
    h.add(HandlerId(1), EventFilter::Code(EventCode::Clicked));
    let mut log = Vec::new();
    assert_eq!(send_clicked(&mut h, id(2), HandlerId(2), &mut log, None, Some(HandlerId(0))), EventResult::Consumed);
    assert_eq!(log, vec!["class", "first"]);
}

#[test]
fn dispatch_bubbles_and_stops() {
    // A handler registered during the dispatch (id 5 >= limit) is not run; `Stop` ends it.
    let mut s = dispatch_begin(id(3), EventCode::Clicked, HandlerId(5));
    let (s1, a) = dispatch_step(&s, DispatchEvent::Start { alive: true });
    assert_eq!(a, DispatchAction::RunObject(id(3)));
    let (s2, a) = dispatch_step(&s1, DispatchEvent::ObjectDone { alive: true });
    assert_eq!(a, DispatchAction::RunWidget(id(3)));
    let (s3, a) = dispatch_step(&s2, DispatchEvent::WidgetDone { alive: true, result: EventResult::Continue,
        stop_bubbling: false, prevent_default: false });
    assert_eq!(a, DispatchAction::RunHandler { node: id(3), after: None, limit: HandlerId(5) });
    let (s4, a) = dispatch_step(&s3, DispatchEvent::NoHandler);
    assert_eq!(a, DispatchAction::AskParent(id(3)));
    let (s5, a) = dispatch_step(&s4, DispatchEvent::Parent { parent: Some(id(1)), bubble_flag: true });
    assert_eq!(a, DispatchAction::RunObject(id(1)));
    assert_eq!(s5.node, id(1));
    let (_, a) = dispatch_step(&s4, DispatchEvent::Parent { parent: Some(id(1)), bubble_flag: false });
    assert_eq!(a, DispatchAction::Finish(EventResult::Continue));
    // A widget returning `Stop` ends the dispatch as `Stop` once its handlers ran.
    let (s6, _) = dispatch_step(&s2, DispatchEvent::WidgetDone { alive: true, result: EventResult::Stop,
        stop_bubbling: false, prevent_default: false });
    let (_, a) = dispatch_step(&s6, DispatchEvent::NoHandler);
    assert_eq!(a, DispatchAction::Finish(EventResult::Stop));
    // A consumed event skips the handlers.
    let (_, a) = dispatch_step(&s2, DispatchEvent::WidgetDone { alive: true, result: EventResult::Consumed,
        stop_bubbling: false, prevent_default: false });
    assert_eq!(a, DispatchAction::Finish(EventResult::Consumed));
    s = dispatch_begin(id(4), EventCode::Clicked, HandlerId(0));
    assert_eq!(dispatch_step(&s, DispatchEvent::Start { alive: false }).1, DispatchAction::Finish(EventResult::Continue));
}

#[test]
fn custom_codes_increment() {
    let mut r = CodeRegistry::new();
    assert_eq!(r.register_event_code(), EventCode::Custom(0));
    assert_eq!(r.register_event_code(), EventCode::Custom(1));
    let mut last = CodeRegistry { next: u16::MAX };
    assert_eq!(last.register_event_code(), EventCode::Custom(u16::MAX));
    assert_eq!(last.next, 0);
}

fn grid_ev(code: EventCode, focused: Option<NodeId>) -> GridEvent {
    GridEvent {
        code,
        obj: id(1),
        focused,
        first_focusable: Some(id(3)),
        target: id(1),
        current_target: id(1),
        target_is_child: false,
        obj_focused: true,
        keys: true,
        group_focused: true,
    }
}

#[test]
fn gridnav_focus_events() {
    assert_eq!(grid_event(&grid_ev(EventCode::Focused, None)), vec![GridAction::SetFocused(Some(id(3))),
        GridAction::AddFocus(id(3)), GridAction::ClearPressed(id(3)), GridAction::ScrollToView(id(3), false)]);
    assert_eq!(grid_event(&grid_ev(EventCode::Focused, Some(id(5))))[0], GridAction::SetFocused(Some(id(5))));
    assert_eq!(grid_event(&grid_ev(EventCode::Defocused, Some(id(5)))), vec![GridAction::ClearFocus(id(5))]);
    assert_eq!(grid_event(&grid_ev(EventCode::Defocused, None)), vec![]);
    let mut created = grid_ev(EventCode::ChildCreated, None);
    created.target = id(7);
    created.target_is_child = true;
    assert_eq!(grid_event(&created), vec![GridAction::SetFocused(Some(id(7))), GridAction::AddFocus(id(7)),
        GridAction::ScrollToView(id(7), false)]);
    created.obj_focused = false;
    assert_eq!(grid_event(&created), vec![GridAction::SetFocused(Some(id(7)))]);
    created.focused = Some(id(5));
    assert_eq!(grid_event(&created), vec![]);
    assert_eq!(grid_event(&grid_ev(EventCode::ChildDeleted, None)), vec![GridAction::SetFocused(Some(id(3)))]);
    assert_eq!(grid_event(&grid_ev(EventCode::Delete, None)), vec![GridAction::Remove]);
    assert_eq!(grid_event(&grid_ev(EventCode::Clicked, Some(id(5)))), vec![GridAction::Forward(id(5))]);
    let mut pointer = grid_ev(EventCode::Clicked, Some(id(5)));
    pointer.keys = false;
    assert_eq!(grid_event(&pointer), vec![]);
}

#[test]
fn gridnav_key_moves_the_focus() {
    assert_eq!(key_finish(id(2), Some(id(4)), true, true), vec![GridAction::ClearFocus(id(2)),
        GridAction::Send(EventCode::Defocused, id(2)), GridAction::EndUnlessAlive(id(4)), GridAction::AddFocus(id(4)),
        GridAction::Send(EventCode::Focused, id(4)), GridAction::ScrollToView(id(4), true),
        GridAction::SetFocused(Some(id(4)))]);
    assert_eq!(key_finish(id(2), Some(id(2)), true, true), vec![]);
    assert_eq!(key_finish(id(2), None, false, true), vec![GridAction::ClearFocus(id(2))]);
    assert_eq!(key_finish(id(2), Some(id(4)), true, false), vec![]);
}

#[test]
fn registered_handlers_get_fresh_ids_and_removal_takes_one() {
    let mut ids = HandlerIds::new();
    let mut list = HandlerList::new();
    let a = ids.register(&mut list, EventFilter::All);
    let b = ids.register(&mut list, EventFilter::All);
    assert_eq!((a, b), (HandlerId(0), HandlerId(1)));
    assert_eq!(ids.limit(), HandlerId(2));
    assert_eq!(list.len(), 2);
    assert!(list.remove(a));
    assert_eq!(list.len(), 1);
    assert!(!list.remove(a));
    assert_eq!(list.len(), 1);
}

#[test]
fn gridnav_key_searches_end_in_a_child_or_a_group_step() {
    let roll = KeyMove::Find { primary: Find::Right, secondary: Some(Find::NextRowFirst), fallback: Some(true), group_forward: None };
    assert_eq!(key_target(roll, Some(id(4)), None, Some(id(1)), Some(id(9)), true), (Some(id(4)), None));
    assert_eq!(key_target(roll, None, Some(id(6)), Some(id(1)), Some(id(9)), true), (Some(id(6)), None));
    assert_eq!(key_target(roll, None, None, Some(id(1)), Some(id(9)), true), (Some(id(1)), None));
    let down = KeyMove::Find { primary: Find::Bottom, secondary: Some(Find::FirstRow), fallback: None, group_forward: None };
    assert_eq!(key_target(down, None, None, Some(id(1)), Some(id(9)), true), (None, None));
    let plain = KeyMove::Find { primary: Find::Left, secondary: None, fallback: None, group_forward: Some(false) };
    assert_eq!(key_target(plain, None, None, Some(id(1)), Some(id(9)), true), (None, Some(false)));
    assert_eq!(key_target(plain, None, None, Some(id(1)), Some(id(9)), false), (None, None));
    assert_eq!(key_target(KeyMove::Forward, Some(id(4)), None, None, None, true), (None, None));
}
