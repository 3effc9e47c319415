//! The base object (LVGL `lv_obj`): its class and the behaviour every node has for the
//! events that reach it.
use vstd::prelude::*;
use crate::event::{EventCode, Key};
use crate::flags::{ObjFlags, CLICKABLE, CLICK_FOCUSABLE, SCROLLABLE, SCROLL_ELASTIC, SCROLL_MOMENTUM,
    SCROLL_WITH_ARROW, SCROLL_CHAIN, SCROLL_ON_FOCUS, SNAPPABLE, PRESS_LOCK, GESTURE_BUBBLE, CHECKABLE,
    STATE_PRESSED, STATE_CHECKED, STATE_FOCUSED, STATE_FOCUS_KEY, STATE_EDITED, STATE_SCROLLED, STATE_HOVERED};
use crate::scroll::tdiv;
use crate::widget::WidgetClass;

verus! {

/// Default flags of the base object class (LVGL `lv_obj_constructor`).
pub const OBJ_FLAGS: u32 = 0xbf76;

/// The base object: a styled rectangle that can hold children. Screens, layers and plain
/// containers are `Obj`s.
#[derive(Clone, Copy, Debug, PartialEq, Eq, Structural, Hash, Default)]
pub struct Obj;

impl Obj {
    /// The class of the base object (see [`obj_class`]).
    pub fn class(&self) -> (c: WidgetClass)
        ensures
            c.name@ == "obj"@,
            c.default_flags.bits == OBJ_FLAGS,
    {
        obj_class()
    }
}

/// The class of the base object: named `obj`, with [`OBJ_FLAGS`].
pub fn obj_class() -> (c: WidgetClass)
    ensures
        c.name@ == "obj"@,
        c.default_flags.bits == OBJ_FLAGS,
        c.group_def == crate::widget::GroupDef::Default,
        c.editable == crate::widget::Editable::Inherit,
        c.theme_inheritable,
{
    WidgetClass::new("obj").default_flags(ObjFlags { bits: OBJ_FLAGS })
}

/// The base object flags are exactly these.
pub proof fn lemma_obj_flags()
    ensures
        OBJ_FLAGS == CLICKABLE | CLICK_FOCUSABLE | SCROLLABLE | SCROLL_ELASTIC | SCROLL_MOMENTUM
            | SCROLL_WITH_ARROW | SCROLL_CHAIN | SCROLL_ON_FOCUS | SNAPPABLE | PRESS_LOCK | GESTURE_BUBBLE,
{
    assert(0xbf76u32 == 0x2u32 | 0x4u32 | 0x10u32 | 0x20u32 | 0x40u32 | 0x800u32 | 0x300u32 | 0x400u32
        | 0x1000u32 | 0x2000u32 | 0x8000u32) by (bit_vector);
}

/// What the node and the engine tell about a node receiving an event.
#[derive(Clone, Copy, Debug, PartialEq, Eq, Structural)]
pub struct ObjCtx {
    /// The node's flags and state.
    pub flags: u32,
    pub state: u16,
    /// The pointer that sent the event is scrolling (a release then does not toggle).
    pub scrolled: bool,
    /// The node's class has an encoder edit mode.
    pub editable: bool,
    /// The node's group is in edit mode.
    pub editing: bool,
    /// A keypad or encoder is being processed.
    pub key_input: bool,
    /// The node scrolls in a horizontal direction and has horizontal room.
    pub can_scroll_hor: bool,
    /// Its size and scroll offset.
    pub width: i32,
    pub height: i32,
    pub scroll_x: i32,
    pub scroll_y: i32,
    /// It uses an `Active` scrollbar mode; it snaps its children on some axis.
    pub active_scrollbar: bool,
    pub snapping: bool,
}

/// One thing the base object behaviour does.
#[derive(Clone, Copy, Debug, PartialEq, Eq, Structural)]
pub enum ObjOp {
    AddState(u16),
    ClearState(u16),
    /// Send `ValueChanged` to the node.
    ValueChanged,
    /// Scroll the node into view through all its ancestors (animated).
    ScrollIntoView,
    /// Scroll to this horizontal / vertical offset (bounded, no animation).
    ScrollToX(i32),
    ScrollToY(i32),
    /// Redraw the scrollbar; snap the children again.
    InvalidateScrollbar,
    UpdateSnap,
}

/// Whether all bits of `b` are set in `a`.
pub open spec fn has(a: u32, b: u32) -> bool {
    a & b == b
}

/// The behaviour every node has (LVGL `lv_obj_event`) for an event with code `code` (and
/// key `key` for `Key` events):
///
/// - `Pressed` adds `PRESSED`; `Released` and `PressLost` remove it.
/// - `Released` toggles `CHECKED` on `CHECKABLE` nodes and sends `ValueChanged` (not when the
///   press turned into a scroll).
/// - `Key` `Right`/`Up` checks and `Left`/`Down` unchecks a `CHECKABLE` node (`ValueChanged`
///   when it changed); otherwise the arrows scroll a `SCROLLABLE | SCROLL_WITH_ARROW` node
///   that is not editable by a quarter of its size.
/// - `Focused` scrolls the node into view when it has `SCROLL_ON_FOCUS`, then adds `FOCUSED`
///   (+ `FOCUS_KEY` for keypads and encoders, + `EDITED` in edit mode, else removes
///   `EDITED`); `Defocused` removes all three.
/// - `ScrollBegin` / `ScrollEnd` add / remove `SCROLLED` (an `Active` scrollbar is redrawn).
/// - `SizeChanged` snaps the children again when the node snaps.
/// - `HoverOver` / `HoverLeave` add / remove `HOVERED`.
pub open spec fn obj_model(code: EventCode, key: Option<Key>, c: ObjCtx) -> Seq<ObjOp> {
    match code {
        EventCode::Pressed => seq![ObjOp::AddState(STATE_PRESSED)],
        EventCode::PressLost => seq![ObjOp::ClearState(STATE_PRESSED)],
        EventCode::Released => if !c.scrolled && has(c.flags, CHECKABLE) {
            if c.state & STATE_CHECKED == STATE_CHECKED {
                seq![ObjOp::ClearState(STATE_PRESSED), ObjOp::ClearState(STATE_CHECKED), ObjOp::ValueChanged]
            } else {
                seq![ObjOp::ClearState(STATE_PRESSED), ObjOp::AddState(STATE_CHECKED), ObjOp::ValueChanged]
            }
        } else {
            seq![ObjOp::ClearState(STATE_PRESSED)]
        },
        EventCode::Key => match key {
            None => Seq::empty(),
            Some(k) => if has(c.flags, CHECKABLE) {
                let was = c.state & STATE_CHECKED == STATE_CHECKED;
                match k {
                    Key::Right | Key::Up => if was { seq![ObjOp::AddState(STATE_CHECKED)] } else { seq![ObjOp::AddState(STATE_CHECKED), ObjOp::ValueChanged] },
                    Key::Left | Key::Down => if was { seq![ObjOp::ClearState(STATE_CHECKED), ObjOp::ValueChanged] } else { seq![ObjOp::ClearState(STATE_CHECKED)] },
                    _ => Seq::empty(),
                }
            } else if has(c.flags, SCROLLABLE | SCROLL_WITH_ARROW) && !c.editable {
                let dx = tdiv(c.width as int, 4);
                let dy = tdiv(c.height as int, 4);
                match k {
                    Key::Right => if c.can_scroll_hor { seq![ObjOp::ScrollToX((c.scroll_x + dx) as i32)] } else { seq![ObjOp::ScrollToY((c.scroll_y + dy) as i32)] },
                    Key::Left => if c.can_scroll_hor { seq![ObjOp::ScrollToX((c.scroll_x - dx) as i32)] } else { seq![ObjOp::ScrollToY((c.scroll_y - dy) as i32)] },
                    Key::Down => seq![ObjOp::ScrollToY((c.scroll_y + dy) as i32)],
                    Key::Up => seq![ObjOp::ScrollToY((c.scroll_y - dy) as i32)],
                    _ => Seq::empty(),
                }
            } else {
                Seq::empty()
            },
        },
        EventCode::Focused => {
            let s = if c.key_input { (STATE_FOCUSED | STATE_FOCUS_KEY) as u16 } else { STATE_FOCUSED };
            let states = if c.editing {
                seq![ObjOp::AddState((s | STATE_EDITED) as u16)]
            } else {
                seq![ObjOp::AddState(s), ObjOp::ClearState(STATE_EDITED)]
            };
            if has(c.flags, SCROLL_ON_FOCUS) { seq![ObjOp::ScrollIntoView] + states } else { states }
        },
        EventCode::Defocused => seq![ObjOp::ClearState((STATE_FOCUSED | STATE_EDITED | STATE_FOCUS_KEY) as u16)],
        EventCode::ScrollBegin => seq![ObjOp::AddState(STATE_SCROLLED)],
        EventCode::ScrollEnd => if c.active_scrollbar {
            seq![ObjOp::ClearState(STATE_SCROLLED), ObjOp::InvalidateScrollbar]
        } else {
            seq![ObjOp::ClearState(STATE_SCROLLED)]
        },
        EventCode::SizeChanged => if c.snapping { seq![ObjOp::UpdateSnap] } else { Seq::empty() },
        EventCode::HoverOver => seq![ObjOp::AddState(STATE_HOVERED)],
        EventCode::HoverLeave => seq![ObjOp::ClearState(STATE_HOVERED)],
        _ => Seq::empty(),
    }
}

/// The base object behaviour for one event (see [`obj_model`]); the scroll offsets and sizes
/// are in the coordinate range.
pub fn obj_event(code: EventCode, key: Option<Key>, c: &ObjCtx) -> (r: Vec<ObjOp>)
    requires
        crate::geom::coord_ok(c.scroll_x as int),
        crate::geom::coord_ok(c.scroll_y as int),
        -0x4000_0000 <= c.width <= 0x4000_0000,
        -0x4000_0000 <= c.height <= 0x4000_0000,
    ensures
        r@ == obj_model(code, key, *c),
{
    let mut out: Vec<ObjOp> = Vec::new();
    let checkable = c.flags & CHECKABLE == CHECKABLE;
    match code {
        EventCode::Pressed => out.push(ObjOp::AddState(STATE_PRESSED)),
        EventCode::PressLost => out.push(ObjOp::ClearState(STATE_PRESSED)),
        EventCode::Released => {
            out.push(ObjOp::ClearState(STATE_PRESSED));
            if !c.scrolled && checkable {
                if c.state & STATE_CHECKED == STATE_CHECKED {
                    out.push(ObjOp::ClearState(STATE_CHECKED));
                } else {
                    out.push(ObjOp::AddState(STATE_CHECKED));
                }
                out.push(ObjOp::ValueChanged);
            }
        },
        EventCode::Key => match key {
            None => {},
            Some(k) => if checkable {
                let was = c.state & STATE_CHECKED == STATE_CHECKED;
                match k {
                    Key::Right | Key::Up => {
                        out.push(ObjOp::AddState(STATE_CHECKED));
                        if !was {
                            out.push(ObjOp::ValueChanged);
                        }
                    },
                    Key::Left | Key::Down => {
                        out.push(ObjOp::ClearState(STATE_CHECKED));
                        if was {
                            out.push(ObjOp::ValueChanged);
                        }
                    },
                    _ => {},
                }
            } else if c.flags & (SCROLLABLE | SCROLL_WITH_ARROW) == (SCROLLABLE | SCROLL_WITH_ARROW) && !c.editable {
                let dx = c.width / 4;
                let dy = c.height / 4;
                match k {
                    Key::Right => if c.can_scroll_hor { out.push(ObjOp::ScrollToX(c.scroll_x + dx)) } else { out.push(ObjOp::ScrollToY(c.scroll_y + dy)) },
                    Key::Left => if c.can_scroll_hor { out.push(ObjOp::ScrollToX(c.scroll_x - dx)) } else { out.push(ObjOp::ScrollToY(c.scroll_y - dy)) },
                    Key::Down => out.push(ObjOp::ScrollToY(c.scroll_y + dy)),
                    Key::Up => out.push(ObjOp::ScrollToY(c.scroll_y - dy)),
                    _ => {},
                }
            },
        },
        EventCode::Focused => {
            if c.flags & SCROLL_ON_FOCUS == SCROLL_ON_FOCUS {
                out.push(ObjOp::ScrollIntoView);
            }
            let s: u16 = if c.key_input { STATE_FOCUSED | STATE_FOCUS_KEY } else { STATE_FOCUSED };
            if c.editing {
                out.push(ObjOp::AddState(s | STATE_EDITED));
            } else {
                out.push(ObjOp::AddState(s));
                out.push(ObjOp::ClearState(STATE_EDITED));
            }
        },
        EventCode::Defocused => out.push(ObjOp::ClearState(STATE_FOCUSED | STATE_EDITED | STATE_FOCUS_KEY)),
        EventCode::ScrollBegin => out.push(ObjOp::AddState(STATE_SCROLLED)),
        EventCode::ScrollEnd => {
            out.push(ObjOp::ClearState(STATE_SCROLLED));
            if c.active_scrollbar {
                out.push(ObjOp::InvalidateScrollbar);
            }
        },
        EventCode::SizeChanged => if c.snapping {
            out.push(ObjOp::UpdateSnap);
        },
        EventCode::HoverOver => out.push(ObjOp::AddState(STATE_HOVERED)),
        EventCode::HoverLeave => out.push(ObjOp::ClearState(STATE_HOVERED)),
        _ => {},
    }
    proof {
        assert(out@ =~= obj_model(code, key, *c));
    }
    out
}

} // verus!
