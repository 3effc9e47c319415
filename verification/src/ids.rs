//! Identifiers: [`NodeId`], [`DisplayId`], [`GroupId`], [`InputId`] and [`HandlerId`].
use vstd::prelude::*;
use crate::text::{decimal, push_char, push_decimal};

verus! {

/// Handle of a node in the widget tree: a `u16` slot index plus a `u16` generation, so a
/// handle to a deleted node never resolves again, even after its slot is reused.
#[derive(Clone, Copy, Debug, PartialEq, Eq, Structural, Hash, PartialOrd, Ord, Default)]
pub struct NodeId {
    pub slot: u16,
    pub gen: u16,
}

impl NodeId {
    /// The id packed in `raw`: the generation in the high 16 bits, the slot index below.
    pub fn from_raw(raw: u32) -> (id: NodeId)
        ensures
            id.slot == raw % 65536,
            id.gen == raw / 65536,
    {
        NodeId { slot: (raw % 65536) as u16, gen: (raw / 65536) as u16 }
    }

    /// The packed form (see [`from_raw`](Self::from_raw)).
    pub fn to_raw(self) -> (raw: u32)
        ensures
            raw == self.gen * 65536 + self.slot,
    {
        self.gen as u32 * 65536 + self.slot as u32
    }

    /// The slot index.
    pub fn index(self) -> (i: u16)
        ensures
            i == self.slot,
    {
        self.slot
    }

    /// The generation of the slot.
    pub fn generation(self) -> (g: u16)
        ensures
            g == self.gen,
    {
        self.gen
    }
}

/// The `n<index>g<generation>` notation of a node id.
pub open spec fn node_id_text(id: NodeId) -> Seq<char> {
    seq!['n'] + decimal(id.slot as nat) + seq!['g'] + decimal(id.gen as nat)
}

/// Formats a [`NodeId`] as `n<index>g<generation>` (e.g. `n12g3`), the notation of tree dumps.
pub fn fmt_node_id(id: NodeId) -> (s: String)
    ensures
        s@ == node_id_text(id),
{
    let mut s = String::new();
    push_node_id(&mut s, id);
    s
}

/// Appends the `n<index>g<generation>` notation of `id` to `s`.
pub fn push_node_id(s: &mut String, id: NodeId)
    ensures
        final(s)@ == old(s)@ + node_id_text(id),
{
    let ghost s0 = s@;
    push_char(s, 'n');
    push_decimal(s, id.slot as u64);
    push_char(s, 'g');
    push_decimal(s, id.gen as u64);
    assert(s@ =~= s0 + node_id_text(id));
}

/// A letter followed by a decimal number (`d2`, `g0`, `i1`).
pub open spec fn tagged_text(tag: char, n: nat) -> Seq<char> {
    seq![tag] + decimal(n)
}

fn tagged(tag: char, n: u8) -> (s: String)
    ensures
        s@ == tagged_text(tag, n as nat),
{
    let mut s = String::new();
    push_char(&mut s, tag);
    push_decimal(&mut s, n as u64);
    assert(s@ =~= tagged_text(tag, n as nat));
    s
}

/// Handle of a display, in registration order. Printed as `d0`, `d1`, ….
#[derive(Clone, Copy, Debug, PartialEq, Eq, Structural, Hash, PartialOrd, Ord)]
pub struct DisplayId(pub u8);

impl DisplayId {
    /// The display's index in registration order (0 = first display).
    pub fn index(self) -> (i: usize)
        ensures
            i == self.0,
    {
        self.0 as usize
    }

    /// The `d<index>` notation.
    pub fn to_text(self) -> (s: String)
        ensures
            s@ == tagged_text('d', self.0 as nat),
    {
        tagged('d', self.0)
    }
}

/// Handle of a focus group; [`GroupId::to_text`] gives its notation `g0`, `g1`, ….
#[derive(Clone, Copy, Debug, PartialEq, Eq, Structural, Hash, PartialOrd, Ord)]
pub struct GroupId(pub u8);

impl GroupId {
    /// The group's slot index.
    pub fn index(self) -> (i: usize)
        ensures
            i == self.0,
    {
        self.0 as usize
    }

    /// The `g<index>` notation.
    pub fn to_text(self) -> (s: String)
        ensures
            s@ == tagged_text('g', self.0 as nat),
    {
        tagged('g', self.0)
    }
}

/// Handle of an input device; [`InputId::to_text`] gives its notation `i0`, `i1`, ….
#[derive(Clone, Copy, Debug, PartialEq, Eq, Structural, Hash, PartialOrd, Ord)]
pub struct InputId(pub u8);

impl InputId {
    /// The device's slot index.
    pub fn index(self) -> (i: usize)
        ensures
            i == self.0,
    {
        self.0 as usize
    }

    /// The `i<index>` notation.
    pub fn to_text(self) -> (s: String)
        ensures
            s@ == tagged_text('i', self.0 as nat),
    {
        tagged('i', self.0)
    }
}

/// Handle of a user event handler; handlers run in the order of their ids.
#[derive(Clone, Copy, Debug, PartialEq, Eq, Structural, Hash, PartialOrd, Ord)]
pub struct HandlerId(pub u32);

} // verus!
