//! The engine's focus groups (LVGL `lv_group`): the registry of groups, which nodes can take
//! the focus, and the decisions of the group API. Events and callbacks are sent by the
//! caller in between (the focused node gets `Defocused` before the focus moves, the new one
//! `Focused` after).
use vstd::prelude::*;
use crate::error::EngineError;
use crate::flags::{HIDDEN, STATE_DISABLED};
use crate::group::{focus_search, focus_target_ok, GroupState, RefocusPolicy, MAX_GROUPS};
use crate::ids::{GroupId, NodeId};
use crate::tree::Tree;

verus! {

/// Whether `id` can take the focus: it exists, is not disabled and neither it nor an
/// ancestor is hidden.
pub open spec fn can_focus(t: &Tree, id: NodeId) -> bool {
    &&& t.has(id)
    &&& t.nd(id).state.bits & STATE_DISABLED != STATE_DISABLED
    &&& t.nd(id).flags.bits & HIDDEN != HIDDEN
    &&& forall|k: int| 0 <= k < t.anc_of(id).len() ==> t.nd(#[trigger] t.anc_of(id)[k]).flags.bits & HIDDEN != HIDDEN
}

/// Whether `id` can take the focus (see [`can_focus`]).
pub fn focusable(t: &Tree, id: NodeId) -> (b: bool)
    requires
        t.wf(),
    ensures
        b == can_focus(t, id),
{
    let n = match t.node(id) {
        Some(n) => n,
        None => { return false; },
    };
    if n.state.bits & STATE_DISABLED == STATE_DISABLED || n.is_hidden() {
        return false;
    }
    let a = t.ancestors(id);
    proof {
        t.lemma_chain(id);
        assert forall|i: int| 0 <= i < a@.len() implies t.chain_of(id)[i + 1] == #[trigger] a@[i] by {}
    }
    let mut i: usize = 0;
    while i < a.len()
        invariant
            t.wf(),
            t.has(id),
            a@ == t.anc_of(id),
            forall|k: int| 0 <= k < a@.len() ==> t.has(#[trigger] a@[k]),
            i <= a@.len(),
            forall|k: int| 0 <= k < i ==> t.nd(#[trigger] a@[k]).flags.bits & HIDDEN != HIDDEN,
        decreases a@.len() - i,
    {
        let x = t.node(a[i]).unwrap();
        if x.is_hidden() {
            return false;
        }
        i = i + 1;
    }
    true
}

/// The focus groups of the engine by slot (slots of deleted groups are reused) and the
/// default group new widgets join.
#[derive(Clone, Debug)]
pub struct Groups {
    pub slots: Vec<Option<GroupState>>,
    pub default_group: Option<GroupId>,
}

/// Whether `cur` is the position of the first occurrence of the focused node `f` among
/// `nodes` (`None` without a focused node or when it is no member).
pub open spec fn first_at(nodes: Seq<NodeId>, f: Option<NodeId>, cur: Option<int>) -> bool {
    match f {
        None => cur is None,
        Some(x) => match cur {
            Some(i) => 0 <= i < nodes.len() && nodes[i] == x && forall|k: int| 0 <= k < i ==> nodes[k] != x,
            None => !nodes.contains(x),
        },
    }
}

/// Whether two registries hold the same groups and default group.
pub open spec fn same_groups(a: &Groups, b: &Groups) -> bool {
    a.slots@ == b.slots@ && a.default_group == b.default_group
}

impl Groups {
    /// The group `g`, if it exists.
    pub open spec fn get(&self, g: GroupId) -> Option<GroupState> {
        if (g.0 as int) < self.slots@.len() { self.slots@[g.0 as int] } else { None }
    }

    /// At most [`MAX_GROUPS`] slots.
    pub open spec fn wf(&self) -> bool {
        self.slots@.len() <= MAX_GROUPS
    }

    /// No groups.
    pub fn new() -> (r: Groups)
        ensures
            r.wf(),
            r.slots@.len() == 0,
            r.default_group is None,
    {
        Groups { slots: Vec::new(), default_group: None }
    }

    /// Creates an empty group (wrapping, not editing, [`RefocusPolicy::Prev`]) in the first
    /// free slot, or in a new one while there are fewer than [`MAX_GROUPS`];
    /// `TooManyGroups` otherwise.
    pub fn create_group(&mut self) -> (r: Result<GroupId, EngineError>)
        requires
            old(self).wf(),
        ensures
            final(self).wf(),
            final(self).default_group == old(self).default_group,
            match r {
                Ok(g) => {
                    &&& (g.0 as int) <= old(self).slots@.len()
                    &&& forall|k: int| 0 <= k < g.0 ==> old(self).slots@[k] is Some
                    &&& (g.0 as int) < old(self).slots@.len() ==> old(self).slots@[g.0 as int] is None
                        && final(self).slots@.len() == old(self).slots@.len()
                    &&& (g.0 as int) == old(self).slots@.len() ==> final(self).slots@.len() == old(self).slots@.len() + 1
                    &&& forall|k: int| 0 <= k < old(self).slots@.len() && k != g.0 ==> final(self).slots@[k] == old(self).slots@[k]
                    &&& final(self).get(g) matches Some(s) && s.nodes@.len() == 0 && s.focused is None && !s.editing
                        && s.wrap && !s.frozen && s.refocus_policy == RefocusPolicy::Prev
                },
                Err(e) => e == EngineError::TooManyGroups && same_groups(final(self), old(self))
                    && old(self).slots@.len() == MAX_GROUPS && forall|k: int| 0 <= k < MAX_GROUPS ==> old(self).slots@[k] is Some,
            },
    {
        let mut i: usize = 0;
        while i < self.slots.len() && self.slots[i].is_some()
            invariant
                i <= self.slots@.len(),
                self.slots@ == old(self).slots@,
                self.default_group == old(self).default_group,
                self.slots@.len() <= MAX_GROUPS,
                forall|k: int| 0 <= k < i ==> self.slots@[k] is Some,
            decreases self.slots@.len() - i,
        {
            i = i + 1;
        }
        if i == self.slots.len() {
            if self.slots.len() >= MAX_GROUPS {
                return Err(EngineError::TooManyGroups);
            }
            self.slots.push(None);
        }
        self.slots.set(i, Some(GroupState::new()));
        Ok(GroupId(i as u8))
    }

    /// The focused node of `g`.
    pub fn focused(&self, g: GroupId) -> (r: Option<NodeId>)
        ensures
            r == (match self.get(g) { Some(s) => s.focused, None => None }),
    {
        match self.state(g) {
            Some(s) => s.focused,
            None => None,
        }
    }

    /// The group `g`, if it exists.
    pub fn state(&self, g: GroupId) -> (r: Option<&GroupState>)
        ensures
            match r { Some(s) => self.get(g) == Some(*s), None => self.get(g) is None },
    {
        let i = g.0 as usize;
        if i < self.slots.len() {
            match &self.slots[i] {
                Some(s) => Some(s),
                None => None,
            }
        } else {
            None
        }
    }

    /// Number of nodes in `g` (0 for an unknown group).
    pub fn group_count(&self, g: GroupId) -> (n: usize)
        ensures
            n == (match self.get(g) { Some(s) => s.nodes@.len(), None => 0 }),
    {
        match self.state(g) {
            Some(s) => s.nodes.len(),
            None => 0,
        }
    }

    /// The nodes of `g` in focus order (none for an unknown group).
    pub fn group_nodes(&self, g: GroupId) -> (r: Vec<NodeId>)
        ensures
            r@ == (match self.get(g) { Some(s) => s.nodes@, None => Seq::empty() }),
    {
        match self.state(g) {
            Some(s) => s.nodes.clone(),
            None => Vec::new(),
        }
    }

    /// Whether `g` is in edit mode.
    pub fn group_editing(&self, g: GroupId) -> (b: bool)
        ensures
            b == (match self.get(g) { Some(s) => s.editing, None => false }),
    {
        match self.state(g) {
            Some(s) => s.editing,
            None => false,
        }
    }

    /// Takes the group out of slot `i`, leaving the slot empty.
    fn take_slot(&mut self, i: usize) -> (r: Option<GroupState>)
        requires
            i < old(self).slots@.len(),
        ensures
            r == old(self).slots@[i as int],
            final(self).slots@ == old(self).slots@.update(i as int, None),
            final(self).default_group == old(self).default_group,
    {
        let mut tmp: Option<GroupState> = None;
        std::mem::swap(&mut tmp, &mut self.slots[i]);
        tmp
    }

    /// Appends `id` to the members of `g` (LVGL `lv_group_add_obj`, once the node has left
    /// any group it was in). Returns whether it is now the only member, so that the group
    /// takes a focus; `None` for an unknown group, which changes nothing.
    pub fn add_member(&mut self, g: GroupId, id: NodeId) -> (r: Option<bool>)
        ensures
            final(self).default_group == old(self).default_group,
            final(self).slots@.len() == old(self).slots@.len(),
            forall|k: int| 0 <= k < old(self).slots@.len() && k != g.0 ==> final(self).slots@[k] == old(self).slots@[k],
            match old(self).get(g) {
                Some(s) => {
                    &&& r == Some(s.nodes@.len() == 0)
                    &&& final(self).get(g) matches Some(t) && t.nodes@ == s.nodes@.push(id) && t.focused == s.focused
                        && t.editing == s.editing && t.wrap == s.wrap && t.frozen == s.frozen
                        && t.refocus_policy == s.refocus_policy
                },
                None => r is None && same_groups(final(self), old(self)),
            },
    {
        let i = g.0 as usize;
        if i >= self.slots.len() {
            return None;
        }
        match self.take_slot(i) {
            Some(mut st) => {
                st.nodes.push(id);
                let first = st.nodes.len() == 1;
                self.slots.set(i, Some(st));
                Some(first)
            },
            None => {
                proof {
                    assert(self.slots@ =~= old(self).slots@);
                }
                None
            },
        }
    }

    /// Changes the settings of group `g` that are given; returns whether the group exists.
    fn modify(&mut self, g: GroupId, wrap: Option<bool>, frozen: Option<bool>, policy: Option<RefocusPolicy>) -> (found: bool)
        ensures
            found == old(self).get(g) is Some,
            final(self).default_group == old(self).default_group,
            final(self).slots@.len() == old(self).slots@.len(),
            forall|k: int| 0 <= k < old(self).slots@.len() && k != g.0 ==> final(self).slots@[k] == old(self).slots@[k],
            match old(self).get(g) {
                Some(s) => final(self).get(g) == Some(GroupState {
                    wrap: match wrap { Some(w) => w, None => s.wrap },
                    frozen: match frozen { Some(f) => f, None => s.frozen },
                    refocus_policy: match policy { Some(p) => p, None => s.refocus_policy },
                    ..s
                }),
                None => same_groups(final(self), old(self)),
            },
    {
        let i = g.0 as usize;
        if i >= self.slots.len() {
            return false;
        }
        match self.take_slot(i) {
            Some(mut s) => {
                if let Some(w) = wrap {
                    s.wrap = w;
                }
                if let Some(f) = frozen {
                    s.frozen = f;
                }
                if let Some(p) = policy {
                    s.refocus_policy = p;
                }
                self.slots.set(i, Some(s));
                true
            },
            None => {
                self.slots.set(i, None);
                proof {
                    assert(self.slots@ =~= old(self).slots@);
                }
                false
            },
        }
    }

    /// Whether `focus_next` / `focus_prev` wrap around at the ends. Returns whether `g`
    /// exists.
    pub fn set_wrap(&mut self, g: GroupId, wrap: bool) -> (found: bool)
        ensures
            found == old(self).get(g) is Some,
            match old(self).get(g) {
                Some(s) => final(self).get(g) == Some(GroupState { wrap, ..s }),
                None => same_groups(final(self), old(self)),
            },
            forall|k: int| 0 <= k < old(self).slots@.len() && k != g.0 ==> final(self).slots@[k] == old(self).slots@[k],
            final(self).slots@.len() == old(self).slots@.len(),
            final(self).default_group == old(self).default_group,
    {
        self.modify(g, Some(wrap), None, None)
    }

    /// Freezes (`true`) the focus of `g`: focus changes are ignored until unfrozen. Returns
    /// whether `g` exists.
    pub fn focus_freeze(&mut self, g: GroupId, frozen: bool) -> (found: bool)
        ensures
            found == old(self).get(g) is Some,
            match old(self).get(g) {
                Some(s) => final(self).get(g) == Some(GroupState { frozen, ..s }),
                None => same_groups(final(self), old(self)),
            },
            forall|k: int| 0 <= k < old(self).slots@.len() && k != g.0 ==> final(self).slots@[k] == old(self).slots@[k],
            final(self).slots@.len() == old(self).slots@.len(),
            final(self).default_group == old(self).default_group,
    {
        self.modify(g, None, Some(frozen), None)
    }

    /// Where the focus goes when the focused node leaves `g`. Returns whether `g` exists.
    pub fn set_refocus_policy(&mut self, g: GroupId, policy: RefocusPolicy) -> (found: bool)
        ensures
            found == old(self).get(g) is Some,
            match old(self).get(g) {
                Some(s) => final(self).get(g) == Some(GroupState { refocus_policy: policy, ..s }),
                None => same_groups(final(self), old(self)),
            },
            forall|k: int| 0 <= k < old(self).slots@.len() && k != g.0 ==> final(self).slots@[k] == old(self).slots@[k],
            final(self).slots@.len() == old(self).slots@.len(),
            final(self).default_group == old(self).default_group,
    {
        self.modify(g, None, None, Some(policy))
    }

    /// Sets the group new widgets of classes with `GroupDef::True` join; refused (returns
    /// `false`, nothing changes) for an unknown group.
    pub fn set_default_group(&mut self, g: Option<GroupId>) -> (ok: bool)
        ensures
            ok == (match g { Some(x) => old(self).get(x) is Some, None => true }),
            final(self).slots@ == old(self).slots@,
            final(self).default_group == (if ok { g } else { old(self).default_group }),
    {
        if let Some(x) = g {
            if self.state(x).is_none() {
                return false;
            }
        }
        self.default_group = g;
        true
    }

    /// Removes group `g` (after its focused node got `Defocused`): its slot becomes free and
    /// it stops being the default group. Returns it, so that its members leave it and the
    /// inputs using it get no group; `None` for an unknown group.
    pub fn remove_group(&mut self, g: GroupId) -> (r: Option<GroupState>)
        ensures
            r == old(self).get(g),
            r is Some ==> final(self).slots@ == old(self).slots@.update(g.0 as int, None)
                && final(self).default_group == (if old(self).default_group == Some(g) { None } else { old(self).default_group }),
            r is None ==> same_groups(final(self), old(self)),
    {
        let i = g.0 as usize;
        if i >= self.slots.len() {
            return None;
        }
        match self.take_slot(i) {
            Some(s) => {
                if let Some(d) = self.default_group {
                    if d.0 == g.0 {
                        self.default_group = None;
                    }
                }
                Some(s)
            },
            None => {
                proof {
                    assert(self.slots@ =~= old(self).slots@);
                }
                None
            },
        }
    }

    /// The position the focus of `g` moves to, one step forward or back (LVGL
    /// `focus_next_core`), with `focusable[i]` telling whether member `i` can take the focus
    /// (see [`focusable`]): `None` when the group is unknown or frozen, when no member
    /// qualifies, or when the search ends on the focused node itself (see
    /// [`focus_target_ok`]).
    pub fn focus_step(&self, g: GroupId, forward: bool, focusable: &Vec<bool>) -> (r: Option<usize>)
        ensures
            match self.get(g) {
                None => r is None,
                Some(s) => if s.frozen || focusable@.len() != s.nodes@.len() {
                    r is None
                } else {
                    exists|cur: Option<int>| #[trigger] first_at(s.nodes@, s.focused, cur)
                        && focus_target_ok(focusable@, cur, forward, s.wrap, match r { Some(i) => Some(i as int), None => None })
                },
            },
    {
        let s = match self.state(g) {
            Some(s) => s,
            None => { return None; },
        };
        if s.frozen || focusable.len() != s.nodes.len() {
            return None;
        }
        let cur = match s.focused {
            Some(f) => s.position(f),
            None => None,
        };
        let ghost gcur = match cur { Some(c) => Some(c as int), None => None::<int> };
        assert(first_at(s.nodes@, s.focused, gcur));
        focus_search(focusable, cur, forward, s.wrap)
    }

    /// Gives member `id` of `g` the focus (after the previously focused node got
    /// `Defocused`). Refused (returns `false`, nothing changes) when `g` is unknown or `id`
    /// is no member (any more).
    pub fn set_focused(&mut self, g: GroupId, id: NodeId) -> (ok: bool)
        ensures
            ok == (match old(self).get(g) { Some(s) => s.nodes@.contains(id), None => false }),
            ok ==> final(self).get(g) == Some(GroupState { focused: Some(id), ..old(self).get(g).unwrap() }),
            !ok ==> same_groups(final(self), old(self)),
            final(self).slots@.len() == old(self).slots@.len(),
            forall|k: int| 0 <= k < old(self).slots@.len() && k != g.0 ==> final(self).slots@[k] == old(self).slots@[k],
            final(self).default_group == old(self).default_group,
    {
        let i = g.0 as usize;
        if i >= self.slots.len() {
            return false;
        }
        match self.take_slot(i) {
            Some(mut s) => {
                if s.position(id).is_none() {
                    self.slots.set(i, Some(s));
                    proof {
                        assert(self.slots@ =~= old(self).slots@);
                    }
                    return false;
                }
                s.focused = Some(id);
                self.slots.set(i, Some(s));
                true
            },
            None => {
                self.slots.set(i, None);
                proof {
                    assert(self.slots@ =~= old(self).slots@);
                }
                false
            },
        }
    }

    /// Enters or leaves edit mode. Returns the focused node, which then receives `Focused`
    /// again (adding or removing its `EDITED` state), when the mode changed; `None` (nothing
    /// changes) when `g` is unknown or already in that mode.
    pub fn set_editing(&mut self, g: GroupId, editing: bool) -> (notify: Option<NodeId>)
        ensures
            match old(self).get(g) {
                Some(s) => if s.editing == editing {
                    notify is None && same_groups(final(self), old(self))
                } else {
                    &&& notify == s.focused
                    &&& final(self).get(g) == Some(GroupState { editing, ..s })
                    &&& final(self).slots@.len() == old(self).slots@.len()
                    &&& forall|k: int| 0 <= k < old(self).slots@.len() && k != g.0 ==> final(self).slots@[k] == old(self).slots@[k]
                    &&& final(self).default_group == old(self).default_group
                },
                None => notify is None && same_groups(final(self), old(self)),
            },
    {
        let i = g.0 as usize;
        if i >= self.slots.len() {
            return None;
        }
        match self.take_slot(i) {
            Some(mut s) => {
                if s.editing == editing {
                    self.slots.set(i, Some(s));
                    proof {
                        assert(self.slots@ =~= old(self).slots@);
                    }
                    return None;
                }
                let f = s.focused;
                s.editing = editing;
                self.slots.set(i, Some(s));
                f
            },
            None => {
                self.slots.set(i, None);
                proof {
                    assert(self.slots@ =~= old(self).slots@);
                }
                None
            },
        }
    }
}

} // verus!
