//! Focus groups (LVGL `lv_group`): the group's state and the search for the next node to
//! focus.
use vstd::prelude::*;
use crate::ids::NodeId;

verus! {

/// Most groups alive at once.
pub const MAX_GROUPS: usize = 16;

/// Which node gets the focus when the focused node is removed from its group (LVGL
/// `lv_group_refocus_policy_t`; LVGL's default is `Prev`).
#[derive(Clone, Copy, Debug, PartialEq, Eq, Structural, Hash)]
pub enum RefocusPolicy {
    /// The next node.
    Next,
    /// The previous node.
    Prev,
}

impl Default for RefocusPolicy {
    fn default() -> (r: RefocusPolicy)
        ensures
            r == RefocusPolicy::Prev,
    {
        RefocusPolicy::Prev
    }
}

/// Whether `i` is the first (in the search direction) focusable position in `lo..hi`.
pub open spec fn first_in_range(f: Seq<bool>, lo: int, hi: int, forward: bool, i: int) -> bool {
    &&& lo <= i < hi
    &&& f[i]
    &&& forall|k: int| lo <= k < hi && #[trigger] f[k] ==> (if forward { i <= k } else { k <= i })
}

/// Whether some position in `lo..hi` is focusable.
pub open spec fn any_in_range(f: Seq<bool>, lo: int, hi: int) -> bool {
    exists|k: int| lo <= k < hi && #[trigger] f[k]
}

/// The position the focus moves to (LVGL `focus_next_core`), among `f.len()` nodes of which
/// `f[i]` tells whether node `i` can take the focus. From the focused position `current`
/// (none: from the start of the list in the search direction) it is the first focusable
/// position after it in the search direction; at the end of the list the search goes on
/// from the other end when the group wraps, up to (not including) the current position.
/// `None` when there is no such position (the focus does not change).
pub open spec fn focus_target_ok(f: Seq<bool>, current: Option<int>, forward: bool, wrap: bool, r: Option<int>) -> bool {
    let n = f.len() as int;
    match current {
        None => match r {
            Some(i) => first_in_range(f, 0, n, forward, i),
            None => !any_in_range(f, 0, n),
        },
        Some(c) => {
            let (lo1, hi1) = if forward { (c + 1, n) } else { (0, c) };
            let (lo2, hi2) = if forward { (0, c) } else { (c + 1, n) };
            match r {
                Some(i) => first_in_range(f, lo1, hi1, forward, i)
                    || (wrap && !any_in_range(f, lo1, hi1) && first_in_range(f, lo2, hi2, forward, i)),
                None => !any_in_range(f, lo1, hi1) && (!wrap || !any_in_range(f, lo2, hi2)),
            }
        },
    }
}

/// The first focusable position in `lo..hi` in the search direction.
fn first_focusable(f: &Vec<bool>, lo: usize, hi: usize, forward: bool) -> (r: Option<usize>)
    requires
        lo <= hi <= f@.len(),
    ensures
        match r {
            Some(i) => first_in_range(f@, lo as int, hi as int, forward, i as int),
            None => !any_in_range(f@, lo as int, hi as int),
        },
{
    if forward {
        let mut i = lo;
        while i < hi
            invariant
                forward,
                lo <= i <= hi <= f@.len(),
                forall|k: int| lo <= k < i ==> !f@[k],
            decreases hi - i,
        {
            if f[i] {
                proof {
                    assert forall|k: int| lo <= k < hi && #[trigger] f@[k] implies (if forward { i <= k } else { k <= i }) by {}
                }
                return Some(i);
            }
            i = i + 1;
        }
        None
    } else {
        let mut i = hi;
        while i > lo
            invariant
                !forward,
                lo <= i <= hi <= f@.len(),
                forall|k: int| i <= k < hi ==> !f@[k],
            decreases i - lo,
        {
            if f[i - 1] {
                proof {
                    assert forall|k: int| lo <= k < hi && #[trigger] f@[k] implies (if forward { i - 1 <= k } else { k <= i - 1 }) by {}
                }
                return Some(i - 1);
            }
            i = i - 1;
        }
        None
    }
}

/// The position the focus moves to (see [`focus_target_ok`]).
pub fn focus_search(focusable: &Vec<bool>, current: Option<usize>, forward: bool, wrap: bool) -> (r: Option<usize>)
    requires
        match current {
            Some(c) => c < focusable@.len(),
            None => true,
        },
    ensures
        focus_target_ok(focusable@, match current { Some(c) => Some(c as int), None => None }, forward, wrap,
            match r { Some(i) => Some(i as int), None => None }),
{
    let n = focusable.len();
    match current {
        None => first_focusable(focusable, 0, n, forward),
        Some(c) => {
            let (lo1, hi1) = if forward { (c + 1, n) } else { (0, c) };
            let (lo2, hi2) = if forward { (0, c) } else { (c + 1, n) };
            match first_focusable(focusable, lo1, hi1, forward) {
                Some(i) => Some(i),
                None => if wrap { first_focusable(focusable, lo2, hi2, forward) } else { None },
            }
        },
    }
}

/// Moving the focus one step and then one step back returns it to where it was: when the
/// search from a focusable position `c` in one direction finds `i`, the search from `i` in
/// the other direction finds `c`, with or without wrapping.
pub proof fn lemma_step_back(f: Seq<bool>, c: int, i: int, forward: bool, wrap: bool)
    requires
        0 <= c < f.len(),
        f[c],
        focus_target_ok(f, Some(c), forward, wrap, Some(i)),
    ensures
        0 <= i < f.len(),
        focus_target_ok(f, Some(i), !forward, wrap, Some(c)),
{
    let n = f.len() as int;
    if forward {
        if first_in_range(f, c + 1, n, true, i) {
            assert(first_in_range(f, 0, i, false, c));
        } else {
            assert(!any_in_range(f, c + 1, n));
            assert(first_in_range(f, 0, c, true, i));
            assert(!any_in_range(f, 0, i)) by {
                if any_in_range(f, 0, i) {
                    let k = choose|k: int| 0 <= k < i && #[trigger] f[k];
                    assert(f[k]);
                }
            }
            assert(first_in_range(f, i + 1, n, false, c)) by {
                assert forall|k: int| i + 1 <= k < n && #[trigger] f[k] implies k <= c by {
                    if k > c {
                        assert(c + 1 <= k < n && f[k]);
                    }
                }
            }
        }
    } else {
        if first_in_range(f, 0, c, false, i) {
            assert(first_in_range(f, i + 1, n, true, c));
        } else {
            assert(!any_in_range(f, 0, c));
            assert(first_in_range(f, c + 1, n, false, i));
            assert(!any_in_range(f, i + 1, n)) by {
                if any_in_range(f, i + 1, n) {
                    let k = choose|k: int| i + 1 <= k < n && #[trigger] f[k];
                    assert(f[k]);
                }
            }
            assert(first_in_range(f, 0, i, true, c)) by {
                assert forall|k: int| 0 <= k < i && #[trigger] f[k] implies c <= k by {
                    if k < c {
                        assert(0 <= k < c && f[k]);
                    }
                }
            }
        }
    }
}

/// A focus group without its callbacks: the ordered members, the focused one, and the
/// modes.
#[derive(Clone, Debug)]
pub struct GroupState {
    pub nodes: Vec<NodeId>,
    pub focused: Option<NodeId>,
    pub editing: bool,
    pub wrap: bool,
    pub frozen: bool,
    pub refocus_policy: RefocusPolicy,
}

impl GroupState {
    /// An empty group: wrapping, not editing, not frozen, [`RefocusPolicy::Prev`].
    pub fn new() -> (g: GroupState)
        ensures
            g.nodes@.len() == 0,
            g.focused is None,
            !g.editing && g.wrap && !g.frozen,
            g.refocus_policy == RefocusPolicy::Prev,
    {
        GroupState { nodes: Vec::new(), focused: None, editing: false, wrap: true, frozen: false, refocus_policy: RefocusPolicy::Prev }
    }

    /// The position of `id` among the members.
    pub fn position(&self, id: NodeId) -> (r: Option<usize>)
        ensures
            match r {
                Some(i) => i < self.nodes@.len() && self.nodes@[i as int] == id && forall|k: int| 0 <= k < i ==> self.nodes@[k] != id,
                None => !self.nodes@.contains(id),
            },
    {
        let mut i: usize = 0;
        while i < self.nodes.len()
            invariant
                i <= self.nodes@.len(),
                forall|k: int| 0 <= k < i ==> self.nodes@[k] != id,
            decreases self.nodes@.len() - i,
        {
            let n = self.nodes[i];
            if n.slot == id.slot && n.gen == id.gen {
                return Some(i);
            }
            i = i + 1;
        }
        None
    }

    /// Removes every occurrence of `id` from the members; the other members keep their order.
    pub fn remove_member(&mut self, id: NodeId)
        ensures
            final(self).nodes@ == old(self).nodes@.filter(|n: NodeId| n != id),
            final(self).focused == old(self).focused,
            final(self).editing == old(self).editing,
            final(self).wrap == old(self).wrap,
            final(self).frozen == old(self).frozen,
            final(self).refocus_policy == old(self).refocus_policy,
    {
        let ghost old_nodes = self.nodes@;
        let mut kept: Vec<NodeId> = Vec::new();
        let mut i: usize = 0;
        while i < self.nodes.len()
            invariant
                i <= self.nodes@.len(),
                self.nodes@ == old_nodes,
                kept@ == old_nodes.take(i as int).filter(|n: NodeId| n != id),
            decreases self.nodes@.len() - i,
        {
            let n = self.nodes[i];
            if !(n.slot == id.slot && n.gen == id.gen) {
                kept.push(n);
            }
            proof {
                assert(old_nodes.take(i + 1) =~= old_nodes.take(i as int).push(n));
                old_nodes.take(i as int).lemma_filter_push(n, |n: NodeId| n != id);
            }
            i = i + 1;
        }
        proof {
            assert(old_nodes.take(old_nodes.len() as int) =~= old_nodes);
        }
        self.nodes = kept;
    }
}

} // verus!
