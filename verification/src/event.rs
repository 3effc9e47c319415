//! Events: [`EventCode`], [`EventParam`], [`EventResult`], [`Event`], and the input values they
//! carry ([`Key`], [`Dir`]).
use vstd::prelude::*;
use crate::flags::State;
use crate::geom::{Point, Rect};
use crate::ids::NodeId;

verus! {

/// A key of a keypad or encoder (LVGL `lv_key_t`).
#[derive(Clone, Copy, Debug, PartialEq, Eq, Structural, Hash)]
pub enum Key {
    Up,
    Down,
    Right,
    Left,
    Esc,
    Del,
    Backspace,
    Enter,
    Next,
    Prev,
    Home,
    End,
    /// A character key (Unicode scalar value).
    Char(u32),
}

/// A set of directions (LVGL `lv_dir_t`): `LEFT`, `RIGHT`, `TOP`, `BOTTOM` and their unions.
#[derive(Clone, Copy, Debug, PartialEq, Eq, Structural, Hash, Default)]
pub struct Dir {
    pub bits: u8,
}

pub const DIR_NONE: u8 = 0;
pub const DIR_LEFT: u8 = 0x1;
pub const DIR_RIGHT: u8 = 0x2;
pub const DIR_TOP: u8 = 0x4;
pub const DIR_BOTTOM: u8 = 0x8;
pub const DIR_HOR: u8 = 0x3;
pub const DIR_VER: u8 = 0xc;
pub const DIR_ALL: u8 = 0xf;

impl Dir {
    /// The direction set with these bits.
    pub fn from_bits(bits: u8) -> (d: Dir)
        ensures
            d.bits == bits,
    {
        Dir { bits }
    }

    /// Whether every direction of `other` is in the set.
    pub fn contains(&self, other: u8) -> (b: bool)
        ensures
            b == (self.bits & other == other),
    {
        self.bits & other == other
    }

    /// Whether the set shares a direction with `other`.
    pub fn intersects(&self, other: u8) -> (b: bool)
        ensures
            b == (self.bits & other != 0),
    {
        self.bits & other != 0
    }
}

/// What happened (LVGL `lv_event_code_t`).
#[derive(Clone, Copy, Debug, PartialEq, Eq, Structural, Hash)]
pub enum EventCode {
    Pressed,
    Pressing,
    PressLost,
    ShortClicked,
    SingleClicked,
    DoubleClicked,
    TripleClicked,
    LongPressed,
    LongPressedRepeat,
    Clicked,
    Released,
    ScrollBegin,
    ScrollThrowBegin,
    ScrollEnd,
    Scroll,
    Gesture,
    Key,
    Rotary,
    Focused,
    Defocused,
    Leave,
    HitTest,
    HoverOver,
    HoverLeave,
    CoverCheck,
    RefreshExtDrawSize,
    DrawMainBegin,
    DrawMain,
    DrawMainEnd,
    DrawPostBegin,
    DrawPost,
    DrawPostEnd,
    ValueChanged,
    Insert,
    Refresh,
    Ready,
    Cancel,
    Create,
    Delete,
    ChildChanged,
    ChildCreated,
    ChildDeleted,
    ScreenUnloadStart,
    ScreenLoadStart,
    ScreenLoaded,
    ScreenUnloaded,
    SizeChanged,
    StyleChanged,
    StateChanged,
    LayoutChanged,
    GetSelfSize,
    /// An application-defined event.
    Custom(u16),
}

/// Whether `c` is an input event (pressing, clicking, keys, focus, hover, scrolling).
pub open spec fn input_code(c: EventCode) -> bool {
    matches!(c, EventCode::Pressed | EventCode::Pressing | EventCode::PressLost | EventCode::ShortClicked
        | EventCode::SingleClicked | EventCode::DoubleClicked | EventCode::TripleClicked
        | EventCode::LongPressed | EventCode::LongPressedRepeat | EventCode::Clicked | EventCode::Released
        | EventCode::ScrollBegin | EventCode::ScrollThrowBegin | EventCode::ScrollEnd | EventCode::Scroll
        | EventCode::Gesture | EventCode::Key | EventCode::Rotary | EventCode::Focused | EventCode::Defocused
        | EventCode::Leave | EventCode::HitTest | EventCode::HoverOver | EventCode::HoverLeave)
}

/// Whether `c` is a drawing event.
pub open spec fn draw_code(c: EventCode) -> bool {
    matches!(c, EventCode::CoverCheck | EventCode::RefreshExtDrawSize | EventCode::DrawMainBegin
        | EventCode::DrawMain | EventCode::DrawMainEnd | EventCode::DrawPostBegin | EventCode::DrawPost
        | EventCode::DrawPostEnd)
}

/// Whether an event with code `c` continues on the parent: `Some(true)` always, `Some(false)`
/// never, `None` when the node has `EVENT_BUBBLE`.
pub open spec fn bubbling(c: EventCode) -> Option<bool> {
    if matches!(c, EventCode::ChildCreated | EventCode::ChildDeleted) {
        Some(true)
    } else if matches!(c, EventCode::HitTest | EventCode::Refresh | EventCode::Delete | EventCode::Create
        | EventCode::ChildChanged | EventCode::SizeChanged | EventCode::StyleChanged | EventCode::GetSelfSize)
        || draw_code(c) {
        Some(false)
    } else {
        None
    }
}

impl EventCode {
    /// Whether this is an input event (pressing, clicking, keys, focus, hover, scrolling).
    pub fn is_input(&self) -> (b: bool)
        ensures
            b == input_code(*self),
    {
        matches!(self, EventCode::Pressed | EventCode::Pressing | EventCode::PressLost | EventCode::ShortClicked
            | EventCode::SingleClicked | EventCode::DoubleClicked | EventCode::TripleClicked
            | EventCode::LongPressed | EventCode::LongPressedRepeat | EventCode::Clicked | EventCode::Released
            | EventCode::ScrollBegin | EventCode::ScrollThrowBegin | EventCode::ScrollEnd | EventCode::Scroll
            | EventCode::Gesture | EventCode::Key | EventCode::Rotary | EventCode::Focused | EventCode::Defocused
            | EventCode::Leave | EventCode::HitTest | EventCode::HoverOver | EventCode::HoverLeave)
    }

    /// Whether this is a drawing event.
    pub fn is_draw(&self) -> (b: bool)
        ensures
            b == draw_code(*self),
    {
        matches!(self, EventCode::CoverCheck | EventCode::RefreshExtDrawSize | EventCode::DrawMainBegin
            | EventCode::DrawMain | EventCode::DrawMainEnd | EventCode::DrawPostBegin | EventCode::DrawPost
            | EventCode::DrawPostEnd)
    }

    /// Whether the event may continue on the parent (LVGL `event_is_bubbled`): `ChildCreated`
    /// and `ChildDeleted` always do; drawing, hit test, `Refresh`, `Delete`, `Create`,
    /// `ChildChanged`, `SizeChanged`, `StyleChanged` and `GetSelfSize` never do; all others do
    /// when the node has `EVENT_BUBBLE` (`None`).
    pub fn bubbles(self) -> (r: Option<bool>)
        ensures
            r == bubbling(self),
    {
        match self {
            EventCode::ChildCreated | EventCode::ChildDeleted => Some(true),
            EventCode::HitTest | EventCode::Refresh | EventCode::Delete | EventCode::Create
            | EventCode::ChildChanged | EventCode::SizeChanged | EventCode::StyleChanged
            | EventCode::GetSelfSize => Some(false),
            c => if c.is_draw() { Some(false) } else { None },
        }
    }
}

/// Handle of the text of an event: where it lies in the engine's text buffer, and which
/// dispatch it belongs to.
#[derive(Clone, Copy, Debug, PartialEq, Eq, Structural, Hash)]
pub struct EventText {
    pub start: u32,
    pub len: u32,
    pub serial: u32,
}

/// The parameter of an event.
#[derive(Clone, Copy, Debug, PartialEq, Eq, Structural, Hash)]
pub enum EventParam {
    /// No parameter.
    Empty,
    Point(Point),
    Key(Key),
    Dir(Dir),
    Rotary(i32),
    Value(i32),
    Text(EventText),
    State(State),
    Area(Rect),
}

/// What a handler asks the dispatcher to do next.
#[derive(Clone, Copy, Debug, PartialEq, Eq, Structural, Hash)]
pub enum EventResult {
    /// Go on: remaining handlers run and the event bubbles (if enabled).
    Continue,
    /// Remaining handlers of this node run, but the event does not bubble to the parent.
    Stop,
    /// Nothing else runs: no further handlers, no bubbling.
    Consumed,
}

impl Default for EventResult {
    fn default() -> (r: EventResult)
        ensures
            r == EventResult::Continue,
    {
        EventResult::Continue
    }
}

/// One event as seen by a handler.
#[derive(Clone, Copy, Debug, PartialEq, Eq, Structural, Hash)]
pub struct Event {
    pub code: EventCode,
    pub target: NodeId,
    pub current_target: NodeId,
    pub param: EventParam,
}

impl Event {
    /// The key of a `Key` event.
    pub fn key(&self) -> (r: Option<Key>)
        ensures
            r == (match self.param {
                EventParam::Key(k) => Some(k),
                _ => None::<Key>,
            }),
    {
        match self.param {
            EventParam::Key(k) => Some(k),
            _ => None,
        }
    }

    /// The direction of a `Gesture` event.
    pub fn dir(&self) -> (r: Option<Dir>)
        ensures
            r == (match self.param {
                EventParam::Dir(d) => Some(d),
                _ => None::<Dir>,
            }),
    {
        match self.param {
            EventParam::Dir(d) => Some(d),
            _ => None,
        }
    }

    /// The value of an event with a value parameter.
    pub fn value(&self) -> (r: Option<i32>)
        ensures
            r == (match self.param {
                EventParam::Value(v) => Some(v),
                _ => None::<i32>,
            }),
    {
        match self.param {
            EventParam::Value(v) => Some(v),
            _ => None,
        }
    }

    /// The previous state of a `StateChanged` event.
    pub fn prev_state(&self) -> (r: Option<State>)
        ensures
            r == (match self.param {
                EventParam::State(s) => Some(s),
                _ => None::<State>,
            }),
    {
        match self.param {
            EventParam::State(s) => Some(s),
            _ => None,
        }
    }
}

} // verus!
