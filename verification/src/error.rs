//! [`EngineError`] and [`InvariantError`].
use vstd::prelude::*;
use crate::ids::{DisplayId, NodeId, node_id_text, push_node_id, tagged_text};
use crate::text::{decimal, push_char, push_decimal, push_str};

verus! {

/// Errors of the engine API.
#[derive(Clone, Debug, PartialEq, Eq)]
pub enum EngineError {
    /// The node does not exist (never created, or deleted).
    NodeNotFound(NodeId),
    /// The display does not exist.
    DisplayNotFound(DisplayId),
    /// Too many displays.
    TooManyDisplays,
    /// Too many input devices.
    TooManyInputs,
    /// Too many focus groups.
    TooManyGroups,
    /// More than 65 535 live nodes.
    TooManyNodes,
    /// A draw buffer or framebuffer is smaller than needed.
    BufferTooSmall { needed: usize, got: usize },
    /// A draw buffer does not start at a 4-byte aligned address.
    BufferMisaligned,
    /// The buffer mode does not match the display kind.
    BufferModeMismatch,
    /// A configuration value or argument is invalid.
    InvalidConfig(&'static str),
    /// A display driver reported an error (its text, at most 64 bytes).
    Driver(String),
}

/// A violated tree invariant.
#[derive(Clone, Copy, Debug, PartialEq, Eq)]
pub struct InvariantError {
    /// The node where the violation was found.
    pub node: NodeId,
    /// What is wrong.
    pub what: &'static str,
    /// Another node involved, if any.
    pub other: Option<NodeId>,
}

/// The number of bytes of `c` in UTF-8.
pub open spec fn utf8_len(c: char) -> nat {
    let v = c as u32;
    if v < 0x80 { 1 } else if v < 0x800 { 2 } else if v < 0x10000 { 3 } else { 4 }
}

/// The longest prefix of `s` that fits in `cap` bytes of UTF-8.
pub open spec fn fitting_prefix(s: Seq<char>, cap: nat) -> Seq<char>
    decreases s.len(),
{
    if s.len() == 0 || utf8_len(s[0]) > cap {
        Seq::empty()
    } else {
        seq![s[0]] + fitting_prefix(s.skip(1), (cap - utf8_len(s[0])) as nat)
    }
}

/// The capacity of a driver error text in bytes.
pub const DRIVER_TEXT_BYTES: usize = 64;

proof fn lemma_prefix_step(s: Seq<char>, i: int, cap: nat)
    requires
        0 <= i < s.len(),
        utf8_len(s[i]) <= cap,
    ensures
        fitting_prefix(s.skip(i), cap) == seq![s[i]] + fitting_prefix(s.skip(i + 1), (cap - utf8_len(s[i])) as nat),
{
    assert(s.skip(i)[0] == s[i]);
    assert(s.skip(i).skip(1) =~= s.skip(i + 1));
}

impl EngineError {
    /// A [`EngineError::Driver`] from a driver error's text, truncated to its first
    /// characters that fit in 64 bytes of UTF-8.
    pub fn driver(text: &str) -> (e: EngineError)
        ensures
            e matches EngineError::Driver(t) && t@ == fitting_prefix(text@, 64),
    {
        let mut out = String::new();
        let n = text.unicode_len();
        let mut i: usize = 0;
        let mut used: usize = 0;
        proof {
            assert(text@.skip(0) =~= text@);
            assert(out@ =~= Seq::<char>::empty());
            assert(out@ + fitting_prefix(text@, 64) =~= fitting_prefix(text@, 64));
        }
        while i < n
            invariant
                n == text@.len(),
                i <= n,
                used <= 64,
                out@ + fitting_prefix(text@.skip(i as int), (64 - used) as nat) == fitting_prefix(text@, 64),
            decreases n - i,
        {
            let c = text.get_char(i);
            let v = c as u32;
            let w: usize = if v < 0x80 { 1 } else if v < 0x800 { 2 } else if v < 0x10000 { 3 } else { 4 };
            assert(w == utf8_len(text@[i as int]));
            if used + w > 64 {
                proof {
                    assert(text@.skip(i as int)[0] == text@[i as int]);
                    assert(fitting_prefix(text@.skip(i as int), (64 - used) as nat) =~= Seq::<char>::empty());
                    assert(out@ + Seq::<char>::empty() =~= out@);
                }
                return EngineError::Driver(out);
            }
            proof {
                lemma_prefix_step(text@, i as int, (64 - used) as nat);
            }
            let ghost before = out@;
            push_char(&mut out, c);
            proof {
                assert(out@ + fitting_prefix(text@.skip(i + 1), (64 - (used + w)) as nat)
                    =~= before + (seq![text@[i as int]] + fitting_prefix(text@.skip(i + 1), ((64 - used) - utf8_len(text@[i as int])) as nat)));
            }
            used = used + w;
            i = i + 1;
        }
        proof {
            assert(text@.skip(n as int) =~= Seq::<char>::empty());
            assert(out@ + Seq::<char>::empty() =~= out@);
        }
        EngineError::Driver(out)
    }

    /// The message of the error (its `Display` text).
    pub open spec fn message_text(&self) -> Seq<char> {
        match self {
            EngineError::NodeNotFound(id) => "node "@ + node_id_text(*id) + " not found"@,
            EngineError::DisplayNotFound(d) => "display "@ + tagged_text('d', d.0 as nat) + " not found"@,
            EngineError::TooManyDisplays => "too many displays"@,
            EngineError::TooManyInputs => "too many input devices"@,
            EngineError::TooManyGroups => "too many focus groups"@,
            EngineError::TooManyNodes => "too many nodes"@,
            EngineError::BufferTooSmall { needed, got } => "buffer too small: "@ + decimal(*got as nat) + " bytes, "@
                + decimal(*needed as nat) + " needed"@,
            EngineError::BufferMisaligned => "draw buffer is not 4-byte aligned"@,
            EngineError::BufferModeMismatch => "buffer mode does not match the display kind"@,
            EngineError::InvalidConfig(s) => "invalid configuration: "@ + s@,
            EngineError::Driver(t) => "driver error: "@ + t@,
        }
    }

    /// The message of the error, e.g. `too many displays`.
    pub fn message(&self) -> (r: String)
        ensures
            r@ == self.message_text(),
    {
        let mut out = String::new();
        let ghost o = out@;
        match self {
            EngineError::NodeNotFound(id) => {
                push_str(&mut out, "node ");
                push_node_id(&mut out, *id);
                push_str(&mut out, " not found");
            },
            EngineError::DisplayNotFound(d) => {
                push_str(&mut out, "display ");
                push_char(&mut out, 'd');
                push_decimal(&mut out, d.0 as u64);
                push_str(&mut out, " not found");
            },
            EngineError::TooManyDisplays => push_str(&mut out, "too many displays"),
            EngineError::TooManyInputs => push_str(&mut out, "too many input devices"),
            EngineError::TooManyGroups => push_str(&mut out, "too many focus groups"),
            EngineError::TooManyNodes => push_str(&mut out, "too many nodes"),
            EngineError::BufferTooSmall { needed, got } => {
                push_str(&mut out, "buffer too small: ");
                push_decimal(&mut out, *got as u64);
                push_str(&mut out, " bytes, ");
                push_decimal(&mut out, *needed as u64);
                push_str(&mut out, " needed");
            },
            EngineError::BufferMisaligned => push_str(&mut out, "draw buffer is not 4-byte aligned"),
            EngineError::BufferModeMismatch => push_str(&mut out, "buffer mode does not match the display kind"),
            EngineError::InvalidConfig(s) => {
                push_str(&mut out, "invalid configuration: ");
                push_str(&mut out, s);
            },
            EngineError::Driver(t) => {
                push_str(&mut out, "driver error: ");
                push_str(&mut out, t.as_str());
            },
        }
        proof {
            assert(o =~= Seq::<char>::empty());
            assert(out@ =~= self.message_text());
        }
        out
    }
}

} // verus!
