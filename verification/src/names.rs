//! The names of the flags set in [`ObjFlags`] and [`State`] values, as used by tree dumps:
//! `A|B|C`, or `-` when none is set.
use vstd::prelude::*;
use crate::flags::{ObjFlags, State};
use crate::text::{push_char, push_str};

verus! {

/// Whether bit `i` of `bits` is set.
pub open spec fn bit_set(bits: u32, i: u32) -> bool {
    (bits >> i) & 1 == 1
}

/// The name of the object flag at bit `i`.
pub open spec fn obj_flag_name(i: int) -> Option<Seq<char>> {
    if i == 0 { Some("HIDDEN"@) }
    else if i == 1 { Some("CLICKABLE"@) }
    else if i == 2 { Some("CLICK_FOCUSABLE"@) }
    else if i == 3 { Some("CHECKABLE"@) }
    else if i == 4 { Some("SCROLLABLE"@) }
    else if i == 5 { Some("SCROLL_ELASTIC"@) }
    else if i == 6 { Some("SCROLL_MOMENTUM"@) }
    else if i == 7 { Some("SCROLL_ONE"@) }
    else if i == 8 { Some("SCROLL_CHAIN_HOR"@) }
    else if i == 9 { Some("SCROLL_CHAIN_VER"@) }
    else if i == 10 { Some("SCROLL_ON_FOCUS"@) }
    else if i == 11 { Some("SCROLL_WITH_ARROW"@) }
    else if i == 12 { Some("SNAPPABLE"@) }
    else if i == 13 { Some("PRESS_LOCK"@) }
    else if i == 14 { Some("EVENT_BUBBLE"@) }
    else if i == 15 { Some("GESTURE_BUBBLE"@) }
    else if i == 16 { Some("ADV_HITTEST"@) }
    else if i == 17 { Some("IGNORE_LAYOUT"@) }
    else if i == 18 { Some("FLOATING"@) }
    else if i == 19 { Some("SEND_DRAW_TASK_EVENTS"@) }
    else if i == 20 { Some("OVERFLOW_VISIBLE"@) }
    else if i == 21 { Some("FLEX_IN_NEW_TRACK"@) }
    else if i == 22 { Some("LAYOUT_PASSTHROUGH"@) }
    else if i == 23 { Some("LAYOUT_1"@) }
    else if i == 24 { Some("LAYOUT_2"@) }
    else if i == 25 { Some("WIDGET_1"@) }
    else if i == 26 { Some("WIDGET_2"@) }
    else if i == 27 { Some("USER_1"@) }
    else if i == 28 { Some("USER_2"@) }
    else if i == 29 { Some("USER_3"@) }
    else if i == 30 { Some("USER_4"@) }
    else { None }
}

/// The name of the state flag at bit `i`.
pub open spec fn state_flag_name(i: int) -> Option<Seq<char>> {
    if i == 0 { Some("CHECKED"@) }
    else if i == 1 { Some("FOCUSED"@) }
    else if i == 2 { Some("FOCUS_KEY"@) }
    else if i == 3 { Some("EDITED"@) }
    else if i == 4 { Some("HOVERED"@) }
    else if i == 5 { Some("PRESSED"@) }
    else if i == 6 { Some("SCROLLED"@) }
    else if i == 7 { Some("DISABLED"@) }
    else if i == 12 { Some("USER_1"@) }
    else if i == 13 { Some("USER_2"@) }
    else if i == 14 { Some("USER_3"@) }
    else if i == 15 { Some("USER_4"@) }
    else { None }
}

/// The names of the named flags among the first `n` bits of `bits`, joined by `|`.
pub open spec fn joined_names(bits: u32, n: nat, name: spec_fn(int) -> Option<Seq<char>>) -> Seq<char>
    decreases n,
{
    if n == 0 {
        Seq::empty()
    } else {
        let prev = joined_names(bits, (n - 1) as nat, name);
        let i = (n - 1) as int;
        if bit_set(bits, i as u32) && name(i) is Some {
            if prev.len() == 0 { name(i).unwrap() } else { prev + seq!['|'] + name(i).unwrap() }
        } else {
            prev
        }
    }
}

/// The text of a flag set: the joined names, or `-` when no named flag is set.
pub open spec fn flag_text(bits: u32, name: spec_fn(int) -> Option<Seq<char>>) -> Seq<char> {
    let j = joined_names(bits, 32, name);
    if j.len() == 0 { seq!['-'] } else { j }
}

fn obj_flag_name_at(i: u32) -> (r: Option<&'static str>)
    ensures
        match r {
            Some(s) => obj_flag_name(i as int) == Some(s@) && s@.len() > 0,
            None => obj_flag_name(i as int) is None,
        },
{
    proof {
        reveal_strlit("HIDDEN"); reveal_strlit("CLICKABLE"); reveal_strlit("CLICK_FOCUSABLE");
        reveal_strlit("CHECKABLE"); reveal_strlit("SCROLLABLE"); reveal_strlit("SCROLL_ELASTIC");
        reveal_strlit("SCROLL_MOMENTUM"); reveal_strlit("SCROLL_ONE"); reveal_strlit("SCROLL_CHAIN_HOR");
        reveal_strlit("SCROLL_CHAIN_VER"); reveal_strlit("SCROLL_ON_FOCUS"); reveal_strlit("SCROLL_WITH_ARROW");
        reveal_strlit("SNAPPABLE"); reveal_strlit("PRESS_LOCK"); reveal_strlit("EVENT_BUBBLE");
        reveal_strlit("GESTURE_BUBBLE"); reveal_strlit("ADV_HITTEST"); reveal_strlit("IGNORE_LAYOUT");
        reveal_strlit("FLOATING"); reveal_strlit("SEND_DRAW_TASK_EVENTS"); reveal_strlit("OVERFLOW_VISIBLE");
        reveal_strlit("FLEX_IN_NEW_TRACK"); reveal_strlit("LAYOUT_PASSTHROUGH"); reveal_strlit("LAYOUT_1");
        reveal_strlit("LAYOUT_2"); reveal_strlit("WIDGET_1"); reveal_strlit("WIDGET_2");
        reveal_strlit("USER_1"); reveal_strlit("USER_2"); reveal_strlit("USER_3"); reveal_strlit("USER_4");
    }
    match i {
        0 => Some("HIDDEN"),
        1 => Some("CLICKABLE"),
        2 => Some("CLICK_FOCUSABLE"),
        3 => Some("CHECKABLE"),
        4 => Some("SCROLLABLE"),
        5 => Some("SCROLL_ELASTIC"),
        6 => Some("SCROLL_MOMENTUM"),
        7 => Some("SCROLL_ONE"),
        8 => Some("SCROLL_CHAIN_HOR"),
        9 => Some("SCROLL_CHAIN_VER"),
        10 => Some("SCROLL_ON_FOCUS"),
        11 => Some("SCROLL_WITH_ARROW"),
        12 => Some("SNAPPABLE"),
        13 => Some("PRESS_LOCK"),
        14 => Some("EVENT_BUBBLE"),
        15 => Some("GESTURE_BUBBLE"),
        16 => Some("ADV_HITTEST"),
        17 => Some("IGNORE_LAYOUT"),
        18 => Some("FLOATING"),
        19 => Some("SEND_DRAW_TASK_EVENTS"),
        20 => Some("OVERFLOW_VISIBLE"),
        21 => Some("FLEX_IN_NEW_TRACK"),
        22 => Some("LAYOUT_PASSTHROUGH"),
        23 => Some("LAYOUT_1"),
        24 => Some("LAYOUT_2"),
        25 => Some("WIDGET_1"),
        26 => Some("WIDGET_2"),
        27 => Some("USER_1"),
        28 => Some("USER_2"),
        29 => Some("USER_3"),
        30 => Some("USER_4"),
        _ => None,
    }
}

fn state_flag_name_at(i: u32) -> (r: Option<&'static str>)
    ensures
        match r {
            Some(s) => state_flag_name(i as int) == Some(s@) && s@.len() > 0,
            None => state_flag_name(i as int) is None,
        },
{
    proof {
        reveal_strlit("CHECKED"); reveal_strlit("FOCUSED"); reveal_strlit("FOCUS_KEY");
        reveal_strlit("EDITED"); reveal_strlit("HOVERED"); reveal_strlit("PRESSED");
        reveal_strlit("SCROLLED"); reveal_strlit("DISABLED"); reveal_strlit("USER_1");
        reveal_strlit("USER_2"); reveal_strlit("USER_3"); reveal_strlit("USER_4");
    }
    match i {
        0 => Some("CHECKED"),
        1 => Some("FOCUSED"),
        2 => Some("FOCUS_KEY"),
        3 => Some("EDITED"),
        4 => Some("HOVERED"),
        5 => Some("PRESSED"),
        6 => Some("SCROLLED"),
        7 => Some("DISABLED"),
        12 => Some("USER_1"),
        13 => Some("USER_2"),
        14 => Some("USER_3"),
        15 => Some("USER_4"),
        _ => None,
    }
}

/// Appends the names of the set object flags (`-` when none) to `s`.
pub fn push_obj_flag_names(s: &mut String, f: ObjFlags)
    ensures
        final(s)@ == old(s)@ + flag_text(f.bits, |i: int| obj_flag_name(i)),
{
    let ghost name = |i: int| obj_flag_name(i);
    let ghost s0 = s@;
    let mut first = true;
    let mut i: u32 = 0;
    while i < 32
        invariant
            i <= 32,
            forall|k: int| #[trigger] name(k) == obj_flag_name(k),
            s@ == s0 + joined_names(f.bits, i as nat, name),
            first == (joined_names(f.bits, i as nat, name).len() == 0),
        decreases 32 - i,
    {
        let on = (f.bits >> i) & 1 == 1;
        if on {
            match obj_flag_name_at(i) {
                Some(n) => {
                    if !first {
                        push_char(s, '|');
                    }
                    push_str(s, n);
                    first = false;
                },
                None => {},
            }
        }
        proof {
            let prev = joined_names(f.bits, i as nat, name);
            assert(name(i as int) == obj_flag_name(i as int));
            assert(joined_names(f.bits, (i + 1) as nat, name) == (if bit_set(f.bits, i) && name(i as int) is Some {
                if prev.len() == 0 { name(i as int).unwrap() } else { prev + seq!['|'] + name(i as int).unwrap() }
            } else {
                prev
            }));
            assert(s@ =~= s0 + joined_names(f.bits, (i + 1) as nat, name));
        }
        i = i + 1;
    }
    if first {
        push_char(s, '-');
    }
    proof {
        assert(s@ =~= s0 + flag_text(f.bits, name));
    }
}

/// Appends the names of the set state flags (`-` when none) to `s`.
pub fn push_state_names(s: &mut String, st: State)
    ensures
        final(s)@ == old(s)@ + flag_text(st.bits as u32, |i: int| state_flag_name(i)),
{
    let ghost name = |i: int| state_flag_name(i);
    let ghost s0 = s@;
    let bits = st.bits as u32;
    let mut first = true;
    let mut i: u32 = 0;
    while i < 32
        invariant
            i <= 32,
            bits == st.bits as u32,
            forall|k: int| #[trigger] name(k) == state_flag_name(k),
            s@ == s0 + joined_names(bits, i as nat, name),
            first == (joined_names(bits, i as nat, name).len() == 0),
        decreases 32 - i,
    {
        let on = (bits >> i) & 1 == 1;
        if on {
            match state_flag_name_at(i) {
                Some(n) => {
                    if !first {
                        push_char(s, '|');
                    }
                    push_str(s, n);
                    first = false;
                },
                None => {},
            }
        }
        proof {
            let prev = joined_names(bits, i as nat, name);
            assert(name(i as int) == state_flag_name(i as int));
            assert(joined_names(bits, (i + 1) as nat, name) == (if bit_set(bits, i) && name(i as int) is Some {
                if prev.len() == 0 { name(i as int).unwrap() } else { prev + seq!['|'] + name(i as int).unwrap() }
            } else {
                prev
            }));
            assert(s@ =~= s0 + joined_names(bits, (i + 1) as nat, name));
        }
        i = i + 1;
    }
    if first {
        push_char(s, '-');
    }
    proof {
        assert(s@ =~= s0 + flag_text(bits, name));
    }
}

/// The names of the set object flags, `A|B|C` (`-` when none).
pub fn flag_names(f: ObjFlags) -> (s: String)
    ensures
        s@ == flag_text(f.bits, |i: int| obj_flag_name(i)),
{
    let mut s = String::new();
    push_obj_flag_names(&mut s, f);
    proof {
        assert(s@ =~= flag_text(f.bits, |i: int| obj_flag_name(i)));
    }
    s
}

/// The names of the set state flags, `A|B|C` (`-` when none).
pub fn state_names(st: State) -> (s: String)
    ensures
        s@ == flag_text(st.bits as u32, |i: int| state_flag_name(i)),
{
    let mut s = String::new();
    push_state_names(&mut s, st);
    proof {
        assert(s@ =~= flag_text(st.bits as u32, |i: int| state_flag_name(i)));
    }
    s
}

} // verus!
