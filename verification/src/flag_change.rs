//! What changing a node's flags entails (LVGL `lv_obj_add_flag` / `lv_obj_remove_flag`):
//! the redraws before and after the change, the layout of the parent and the scrollbars.
use vstd::prelude::*;
use crate::flags::{ObjFlags, FLEX_IN_NEW_TRACK, FLOATING, HIDDEN, IGNORE_LAYOUT, LAYOUT_PASSTHROUGH,
    OVERFLOW_VISIBLE, SCROLLABLE};

verus! {

/// The flags whose change affects the layout of the parent.
pub const LAYOUT_AFFECTING: u32 = HIDDEN | IGNORE_LAYOUT | FLOATING | FLEX_IN_NEW_TRACK | LAYOUT_PASSTHROUGH;

/// One thing a flag change does, in order.
#[derive(Clone, Copy, Debug, PartialEq, Eq, Structural)]
pub enum FlagStep {
    /// Redraw the node and its subtree (with the flags it has at this point).
    InvalidateSubtree,
    /// Write the new flags.
    Write(ObjFlags),
    /// Mark the parent's children for layout (`LAYOUT_CHILDREN`) and redraw the parent's
    /// scrollbar tracks.
    RelayoutParent,
    /// Redraw the scrollbars as they were with `before` and as they are with `after`.
    RedrawScrollbars { before: ObjFlags, after: ObjFlags },
}

/// The flags after setting (`on`) or clearing `flags` in `old`.
pub open spec fn changed_flags(old: u32, flags: u32, on: bool) -> u32 {
    if on { old | flags } else { old & !flags }
}

/// The steps of a flag change: nothing when the flags stay the same; else hiding redraws
/// the subtree before the change and showing after it, clearing `OVERFLOW_VISIBLE` redraws
/// before and setting it after, a change of a layout-affecting flag re-lays out the
/// parent, and a change of `SCROLLABLE` redraws the scrollbars as they were and as they
/// are.
pub open spec fn flag_steps(old: u32, flags: u32, on: bool) -> Seq<FlagStep> {
    let new = changed_flags(old, flags, on);
    let ch = old ^ new;
    let hidden = ch & HIDDEN == HIDDEN;
    let overflow = ch & OVERFLOW_VISIBLE == OVERFLOW_VISIBLE;
    let inv = seq![FlagStep::InvalidateSubtree];
    let none = Seq::<FlagStep>::empty();
    if new == old {
        none
    } else {
        (if hidden && on { inv } else { none })
            + (if overflow && !on { inv } else { none })
            + seq![FlagStep::Write(ObjFlags { bits: new })]
            + (if hidden && !on { inv } else { none })
            + (if ch & LAYOUT_AFFECTING != 0 { seq![FlagStep::RelayoutParent] } else { none })
            + (if ch & SCROLLABLE == SCROLLABLE {
                seq![FlagStep::RedrawScrollbars { before: ObjFlags { bits: old }, after: ObjFlags { bits: new } }]
            } else {
                none
            })
            + (if overflow && on { inv } else { none })
    }
}

/// The steps of setting (`on`) or clearing `flags` on a node whose flags are `old` (see
/// [`flag_steps`]); idempotent: an unchanged value does nothing.
pub fn set_flag_steps(old: ObjFlags, flags: u32, on: bool) -> (r: Vec<FlagStep>)
    ensures
        r@ == flag_steps(old.bits, flags, on),
{
    let new = if on { old.bits | flags } else { old.bits & !flags };
    let mut r: Vec<FlagStep> = Vec::new();
    if new == old.bits {
        return r;
    }
    let ch = old.bits ^ new;
    let hidden = ch & HIDDEN == HIDDEN;
    let overflow = ch & OVERFLOW_VISIBLE == OVERFLOW_VISIBLE;
    if hidden && on {
        r.push(FlagStep::InvalidateSubtree);
    }
    if overflow && !on {
        r.push(FlagStep::InvalidateSubtree);
    }
    r.push(FlagStep::Write(ObjFlags { bits: new }));
    if hidden && !on {
        r.push(FlagStep::InvalidateSubtree);
    }
    if ch & LAYOUT_AFFECTING != 0 {
        r.push(FlagStep::RelayoutParent);
    }
    if ch & SCROLLABLE == SCROLLABLE {
        r.push(FlagStep::RedrawScrollbars { before: old, after: ObjFlags { bits: new } });
    }
    if overflow && on {
        r.push(FlagStep::InvalidateSubtree);
    }
    proof {
        let inv = seq![FlagStep::InvalidateSubtree];
        let none = Seq::<FlagStep>::empty();
        assert(r@ =~= (if hidden && on { inv } else { none })
            + (if overflow && !on { inv } else { none })
            + seq![FlagStep::Write(ObjFlags { bits: new })]
            + (if hidden && !on { inv } else { none })
            + (if ch & LAYOUT_AFFECTING != 0 { seq![FlagStep::RelayoutParent] } else { none })
            + (if ch & SCROLLABLE == SCROLLABLE {
                seq![FlagStep::RedrawScrollbars { before: ObjFlags { bits: old.bits }, after: ObjFlags { bits: new } }]
            } else {
                none
            })
            + (if overflow && on { inv } else { none }));
    }
    r
}

} // verus!
