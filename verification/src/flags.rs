//! Object flags ([`ObjFlags`], LVGL `lv_obj_flag_t`), node states ([`State`]) and pending
//! layout work ([`LayoutDirty`]).
use vstd::prelude::*;

verus! {

/// Not drawn, not hit-tested, ignored by layouts.
pub const HIDDEN: u32 = 0x1;
/// Receives pointer presses.
pub const CLICKABLE: u32 = 0x2;
/// Gets the `FOCUSED` state when clicked.
pub const CLICK_FOCUSABLE: u32 = 0x4;
/// Toggles the `CHECKED` state when clicked.
pub const CHECKABLE: u32 = 0x8;
/// Can be scrolled.
pub const SCROLLABLE: u32 = 0x10;
/// Elastic overscroll.
pub const SCROLL_ELASTIC: u32 = 0x20;
/// Scrolling continues with momentum after release.
pub const SCROLL_MOMENTUM: u32 = 0x40;
/// Scrolls at most one snappable child per gesture.
pub const SCROLL_ONE: u32 = 0x80;
/// Propagates horizontal scrolling to the parent at the edge.
pub const SCROLL_CHAIN_HOR: u32 = 0x100;
/// Propagates vertical scrolling to the parent at the edge.
pub const SCROLL_CHAIN_VER: u32 = 0x200;
/// Scrolls to make itself visible when focused.
pub const SCROLL_ON_FOCUS: u32 = 0x400;
/// Scrolls with the arrow keys (keypad / encoder).
pub const SCROLL_WITH_ARROW: u32 = 0x800;
/// Can be a snap target of the parent's scroll snapping.
pub const SNAPPABLE: u32 = 0x1000;
/// Keeps being pressed while the pointer slides off.
pub const PRESS_LOCK: u32 = 0x2000;
/// Events also go to the parent.
pub const EVENT_BUBBLE: u32 = 0x4000;
/// Gestures also go to the parent.
pub const GESTURE_BUBBLE: u32 = 0x8000;
/// Precise hit test.
pub const ADV_HITTEST: u32 = 0x10000;
/// Positioned by hand, ignored by the parent's layout.
pub const IGNORE_LAYOUT: u32 = 0x20000;
/// Ignored by layouts and by the parent's scroll bounds.
pub const FLOATING: u32 = 0x40000;
/// Sends draw task events.
pub const SEND_DRAW_TASK_EVENTS: u32 = 0x80000;
/// Children are not clipped to this node's area.
pub const OVERFLOW_VISIBLE: u32 = 0x100000;
/// Starts a new flex track.
pub const FLEX_IN_NEW_TRACK: u32 = 0x200000;
/// A transparent wrapper laid out as part of its parent.
pub const LAYOUT_PASSTHROUGH: u32 = 0x400000;
/// Reserved for layouts.
pub const LAYOUT_1: u32 = 0x800000;
/// Reserved for layouts.
pub const LAYOUT_2: u32 = 0x1000000;
/// Reserved for widgets.
pub const WIDGET_1: u32 = 0x2000000;
/// Reserved for widgets.
pub const WIDGET_2: u32 = 0x4000000;
/// Free for the application.
pub const USER_1: u32 = 0x8000000;
/// Free for the application.
pub const USER_2: u32 = 0x10000000;
/// Free for the application.
pub const USER_3: u32 = 0x20000000;
/// Free for the application.
pub const USER_4: u32 = 0x40000000;
/// Both scroll chain directions.
pub const SCROLL_CHAIN: u32 = 0x300;

/// Behaviour flags of a node.
#[derive(Clone, Copy, Debug, PartialEq, Eq, Structural, Hash, Default)]
pub struct ObjFlags {
    pub bits: u32,
}

/// Whether every bit of `b` is set in `a`.
pub open spec fn has_bits(a: u32, b: u32) -> bool {
    a & b == b
}

impl ObjFlags {
    /// The flags with exactly these bits.
    pub fn from_bits(bits: u32) -> (f: ObjFlags)
        ensures
            f.bits == bits,
    {
        ObjFlags { bits }
    }

    /// No flag.
    pub fn empty() -> (f: ObjFlags)
        ensures
            f.bits == 0,
    {
        ObjFlags { bits: 0 }
    }

    /// Whether all bits of `other` are set.
    pub fn contains(&self, other: u32) -> (b: bool)
        ensures
            b == has_bits(self.bits, other),
    {
        self.bits & other == other
    }

    /// Whether any bit of `other` is set.
    pub fn intersects(&self, other: u32) -> (b: bool)
        ensures
            b == (self.bits & other != 0),
    {
        self.bits & other != 0
    }

    /// Sets (`on`) or clears the bits of `other`.
    pub fn set(&mut self, other: u32, on: bool)
        ensures
            final(self).bits == (if on { old(self).bits | other } else { old(self).bits & !other }),
    {
        if on {
            self.bits = self.bits | other;
        } else {
            self.bits = self.bits & !other;
        }
    }
}

/// No state bit: the default state.
pub const STATE_DEFAULT: u16 = 0;
/// Checked (toggled on).
pub const STATE_CHECKED: u16 = 0x1;
/// Focused.
pub const STATE_FOCUSED: u16 = 0x2;
/// Focused by a keypad or encoder.
pub const STATE_FOCUS_KEY: u16 = 0x4;
/// In encoder edit mode.
pub const STATE_EDITED: u16 = 0x8;
/// Under a mouse pointer.
pub const STATE_HOVERED: u16 = 0x10;
/// Pressed.
pub const STATE_PRESSED: u16 = 0x20;
/// Being scrolled.
pub const STATE_SCROLLED: u16 = 0x40;
/// Disabled.
pub const STATE_DISABLED: u16 = 0x80;
/// Free for the application.
pub const STATE_USER_1: u16 = 0x1000;
/// Free for the application.
pub const STATE_USER_2: u16 = 0x2000;
/// Free for the application.
pub const STATE_USER_3: u16 = 0x4000;
/// Free for the application.
pub const STATE_USER_4: u16 = 0x8000;

/// The state of a node (LVGL `lv_state_t`).
#[derive(Clone, Copy, Debug, PartialEq, Eq, Structural, Hash, Default)]
pub struct State {
    pub bits: u16,
}

impl State {
    /// The state with exactly these bits.
    pub fn from_bits(bits: u16) -> (s: State)
        ensures
            s.bits == bits,
    {
        State { bits }
    }

    /// Whether all bits of `other` are set.
    pub fn contains(&self, other: u16) -> (b: bool)
        ensures
            b == (self.bits & other == other),
    {
        self.bits & other == other
    }
}

/// The node's own size/position must be recomputed.
pub const LAYOUT_SELF: u8 = 0x1;
/// The node's children must be laid out again.
pub const LAYOUT_CHILDREN: u8 = 0x2;
/// A descendant has pending layout work.
pub const LAYOUT_DESCENDANTS: u8 = 0x4;

/// Layout work pending on a node.
#[derive(Clone, Copy, Debug, PartialEq, Eq, Structural, Hash, Default)]
pub struct LayoutDirty {
    pub bits: u8,
}

} // verus!
