//! Style transitions on state changes (LVGL `obj_transition_states`, `remove_trans_styles`):
//! which transitions a state change starts, and the list of running transitions.
//!
//! When a rendered node changes state, every style entry that applies in the new state and
//! sets the `Transition` property contributes its descriptor's properties; for equal
//! properties of the same part, the entry with the higher or equal state weight found first
//! wins, and at most [`STYLE_TRANSITION_MAX`] properties start transitions.
use vstd::prelude::*;
use crate::ids::NodeId;

verus! {

/// Most properties that start transitions in one state change (LVGL
/// `STYLE_TRANSITION_MAX`).
pub const STYLE_TRANSITION_MAX: usize = 32;

/// A style entry of the node as the start of transitions sees it.
#[derive(Clone, Debug)]
pub struct TransSource {
    /// The entry is a transition style itself.
    pub transition_entry: bool,
    /// The part and the state bits of its selector.
    pub part: u8,
    pub state: u16,
    /// Its part is drawn as an item of the class (items change state without transitions).
    pub item_part: bool,
    /// The properties of its `Transition` descriptor (`None`: it sets no `Transition`).
    pub props: Option<Vec<u16>>,
    /// The handle of its descriptor.
    pub dsc: u32,
}

/// A property that starts a transition: the part, the state of the entry it comes from, the
/// property and the descriptor.
#[derive(Clone, Copy, Debug, PartialEq, Eq, Structural, Hash)]
pub struct TransPick {
    pub part: u8,
    pub state: u16,
    pub prop: u16,
    pub dsc: u32,
}

/// Whether entry `e` contributes transitions to a change into the state `new`: it is no
/// transition style, applies in `new`, is no item part and sets `Transition`.
pub open spec fn contributes(e: TransSource, new: u16) -> bool {
    &&& !e.transition_entry
    &&& e.state & !new == 0
    &&& !e.item_part
    &&& e.props is Some
}

/// The candidates of entry `e`, one per property of its descriptor.
pub open spec fn cands(e: TransSource, new: u16) -> Seq<TransPick> {
    if contributes(e, new) {
        e.props.unwrap()@.map_values(|p: u16| TransPick { part: e.part, state: e.state, prop: p, dsc: e.dsc })
    } else {
        Seq::empty()
    }
}

/// The candidates of the entries in order.
pub open spec fn flat(es: Seq<TransSource>, new: u16) -> Seq<TransPick>
    decreases es.len(),
{
    if es.len() == 0 { Seq::empty() } else { flat(es.drop_last(), new) + cands(es.last(), new) }
}

/// Whether `acc` already holds property `c.prop` of part `c.part` from an entry of higher or
/// equal state weight.
pub open spec fn shadowed(acc: Seq<TransPick>, c: TransPick) -> bool {
    exists|k: int| 0 <= k < acc.len() && acc[k].prop == c.prop && acc[k].part == c.part && #[trigger] acc[k].state >= c.state
}

/// One candidate more: kept unless shadowed; once the list is full, the first candidate that
/// does not fit ends the selection.
pub open spec fn pick_step(st: (Seq<TransPick>, bool), c: TransPick) -> (Seq<TransPick>, bool) {
    if st.1 || shadowed(st.0, c) {
        st
    } else if st.0.len() >= STYLE_TRANSITION_MAX {
        (st.0, true)
    } else {
        (st.0.push(c), false)
    }
}

/// The selection over the candidates `f`, and whether it ended early.
pub open spec fn picks(f: Seq<TransPick>) -> (Seq<TransPick>, bool)
    decreases f.len(),
{
    if f.len() == 0 { (Seq::empty(), false) } else { pick_step(picks(f.drop_last()), f.last()) }
}

fn shadowed_in(acc: &Vec<TransPick>, c: TransPick) -> (b: bool)
    ensures
        b == shadowed(acc@, c),
{
    let mut k: usize = 0;
    while k < acc.len()
        invariant
            k <= acc@.len(),
            forall|j: int| 0 <= j < k ==> !(acc@[j].prop == c.prop && acc@[j].part == c.part && acc@[j].state >= c.state),
        decreases acc@.len() - k,
    {
        let a = acc[k];
        if a.prop == c.prop && a.part == c.part && a.state >= c.state {
            assert(acc@[k as int].state >= c.state);
            return true;
        }
        k = k + 1;
    }
    false
}

/// The transitions a state change into `new` starts (LVGL `obj_transition_states`): the
/// properties of the `Transition` descriptors of the entries that apply in `new` (no
/// transition styles, no item parts), in entry order; a property of a part already picked
/// from an entry of higher or equal state weight is skipped, and the selection ends at the
/// first property that does not fit into [`STYLE_TRANSITION_MAX`].
pub fn select_transitions(es: &Vec<TransSource>, new: u16) -> (r: Vec<TransPick>)
    ensures
        r@ == picks(flat(es@, new)).0,
{
    let mut acc: Vec<TransPick> = Vec::new();
    let mut full = false;
    let mut i: usize = 0;
    proof {
        assert(es@.take(0) =~= Seq::<TransSource>::empty());
    }
    while i < es.len()
        invariant
            i <= es@.len(),
            (acc@, full) == picks(flat(es@.take(i as int), new)),
        decreases es@.len() - i,
    {
        let e = &es[i];
        let ghost x = flat(es@.take(i as int), new);
        let ghost y = cands(es@[i as int], new);
        proof {
            assert(x + y.take(0) =~= x);
        }
        if !e.transition_entry && e.state & !new == 0 && !e.item_part {
            match &e.props {
                Some(ps) => {
                    let mut j: usize = 0;
                    while j < ps.len()
                        invariant
                            0 <= i < es@.len(),
                            *e == es@[i as int],
                            e.props == Some(*ps),
                            contributes(*e, new),
                            y == cands(*e, new),
                            y.len() == ps@.len(),
                            j <= ps@.len(),
                            (acc@, full) == picks(x + y.take(j as int)),
                        decreases ps@.len() - j,
                    {
                        let c = TransPick { part: e.part, state: e.state, prop: ps[j], dsc: e.dsc };
                        proof {
                            assert(y[j as int] == c);
                            let z = x + y.take(j + 1);
                            assert(z.drop_last() =~= x + y.take(j as int));
                            assert(z.last() == c);
                        }
                        if !full && !shadowed_in(&acc, c) {
                            if acc.len() >= STYLE_TRANSITION_MAX {
                                full = true;
                            } else {
                                acc.push(c);
                            }
                        }
                        j = j + 1;
                    }
                    proof {
                        assert(y.take(ps@.len() as int) =~= y);
                    }
                },
                None => {},
            }
        } else {
            proof {
                assert(y =~= Seq::<TransPick>::empty());
            }
        }
        proof {
            let t = es@.take(i + 1);
            assert(t.drop_last() =~= es@.take(i as int));
            assert(t.last() == es@[i as int]);
            assert(flat(t, new) == x + y);
            if !contributes(es@[i as int], new) {
                assert(x + y =~= x);
            }
        }
        i = i + 1;
    }
    proof {
        assert(es@.take(es@.len() as int) =~= es@);
    }
    acc
}

/// A running transition (LVGL `trans_t`) without its values: its creation serial, the node,
/// part and property it animates, and whether its delay is over.
#[derive(Clone, Copy, Debug, PartialEq, Eq, Structural, Hash)]
pub struct TransRecord {
    pub serial: u32,
    pub node: NodeId,
    pub part: u8,
    pub prop: u16,
    pub started: bool,
}

/// Whether serial `a` was handed out before serial `b` (in wrapping order: `a - b`, taken
/// as a signed 32-bit number, is negative).
pub open spec fn older(a: u32, b: u32) -> bool {
    (a as int - b as int) % 0x1_0000_0000 >= 0x8000_0000
}

/// Whether `t` is among the transitions cancelled for `node`, `part` and `prop` (`None` =
/// any) that are older than `older_than` (if given).
pub open spec fn cancels(t: TransRecord, node: NodeId, part: Option<u8>, prop: Option<u16>, older_than: Option<u32>) -> bool {
    &&& t.node == node
    &&& match part { Some(p) => p == t.part, None => true }
    &&& match prop { Some(p) => p == t.prop, None => true }
    &&& match older_than { Some(s) => older(t.serial, s), None => true }
}

/// The running transitions of the engine, oldest first, and the next serial.
#[derive(Clone, Debug)]
pub struct TransList {
    pub list: Vec<TransRecord>,
    pub next_serial: u32,
}

impl TransList {
    /// No transitions.
    pub fn new() -> (t: TransList)
        ensures
            t.list@.len() == 0,
            t.next_serial == 0,
    {
        TransList { list: Vec::new(), next_serial: 0 }
    }

    /// Number of running transitions.
    pub fn transition_count(&self) -> (n: usize)
        ensures
            n == self.list@.len(),
    {
        self.list.len()
    }

    /// Registers a transition of `prop` of `part` of `node` and returns its serial (serials
    /// increase, wrapping).
    pub fn add(&mut self, node: NodeId, part: u8, prop: u16) -> (serial: u32)
        ensures
            serial == old(self).next_serial,
            final(self).next_serial == (if serial == u32::MAX { 0 } else { serial + 1 }),
            final(self).list@ == old(self).list@.push(TransRecord { serial, node, part, prop, started: false }),
    {
        let serial = self.next_serial;
        self.next_serial = serial.wrapping_add(1);
        self.list.push(TransRecord { serial, node, part, prop, started: false });
        serial
    }

    /// The position of the transition with `serial` (none when it was cancelled).
    pub fn position(&self, serial: u32) -> (r: Option<usize>)
        ensures
            match r {
                Some(i) => i < self.list@.len() && self.list@[i as int].serial == serial
                    && forall|k: int| 0 <= k < i ==> self.list@[k].serial != serial,
                None => forall|k: int| 0 <= k < self.list@.len() ==> self.list@[k].serial != serial,
            },
    {
        let mut i: usize = 0;
        while i < self.list.len()
            invariant
                i <= self.list@.len(),
                forall|k: int| 0 <= k < i ==> self.list@[k].serial != serial,
            decreases self.list@.len() - i,
        {
            if self.list[i].serial == serial {
                return Some(i);
            }
            i = i + 1;
        }
        None
    }

    /// Marks the transition at `i` as started (its delay is over).
    pub fn mark_started(&mut self, i: usize)
        requires
            i < old(self).list@.len(),
        ensures
            final(self).list@ == old(self).list@.update(i as int, TransRecord { started: true, ..old(self).list@[i as int] }),
            final(self).next_serial == old(self).next_serial,
    {
        let t = self.list[i];
        self.list.set(i, TransRecord { started: true, ..t });
    }

    /// Whether a transition of `prop` of `part` of `node` runs.
    pub fn running(&self, node: NodeId, part: u8, prop: u16) -> (b: bool)
        ensures
            b == exists|k: int| 0 <= k < self.list@.len() && #[trigger] self.list@[k].node == node
                && self.list@[k].part == part && self.list@[k].prop == prop,
    {
        let mut i: usize = 0;
        while i < self.list.len()
            invariant
                i <= self.list@.len(),
                forall|k: int| 0 <= k < i ==> !(#[trigger] self.list@[k].node == node && self.list@[k].part == part
                    && self.list@[k].prop == prop),
            decreases self.list@.len() - i,
        {
            let t = self.list[i];
            if t.node.slot == node.slot && t.node.gen == node.gen && t.part == part && t.prop == prop {
                assert(self.list@[i as int].node == node);
                return true;
            }
            i = i + 1;
        }
        false
    }

    /// The transition at `i` completed: it leaves the list. Returns it.
    pub fn remove_at(&mut self, i: usize) -> (t: TransRecord)
        requires
            i < old(self).list@.len(),
        ensures
            t == old(self).list@[i as int],
            final(self).list@ == old(self).list@.remove(i as int),
            final(self).next_serial == old(self).next_serial,
    {
        self.list.remove(i)
    }

    /// Cancels the transitions of `node` matching `part` and `prop` (`None` = any), only
    /// those older than `older_than` if given (LVGL `remove_trans_styles`). Returns the
    /// cancelled ones, whose animations and style properties the caller removes; the others
    /// keep their order.
    pub fn cancel(&mut self, node: NodeId, part: Option<u8>, prop: Option<u16>, older_than: Option<u32>) -> (removed: Vec<TransRecord>)
        ensures
            final(self).list@ == old(self).list@.filter(|t: TransRecord| !cancels(t, node, part, prop, older_than)),
            removed@ == old(self).list@.filter(|t: TransRecord| cancels(t, node, part, prop, older_than)),
            final(self).next_serial == old(self).next_serial,
    {
        let ghost old_list = self.list@;
        let mut kept: Vec<TransRecord> = Vec::new();
        let mut removed: Vec<TransRecord> = Vec::new();
        let mut i: usize = 0;
        while i < self.list.len()
            invariant
                i <= self.list@.len(),
                self.list@ == old_list,
                kept@ == old_list.take(i as int).filter(|t: TransRecord| !cancels(t, node, part, prop, older_than)),
                removed@ == old_list.take(i as int).filter(|t: TransRecord| cancels(t, node, part, prop, older_than)),
            decreases self.list@.len() - i,
        {
            let t = self.list[i];
            let hit = t.node.slot == node.slot && t.node.gen == node.gen
                && match part { Some(p) => p == t.part, None => true }
                && match prop { Some(p) => p == t.prop, None => true }
                && match older_than { Some(s) => t.serial.wrapping_sub(s) >= 0x8000_0000u32, None => true };
            proof {
                match older_than {
                    Some(s) => {
                        assert(older(t.serial, s) == (t.serial.wrapping_sub(s) >= 0x8000_0000u32)) by {
                            if t.serial >= s {
                                assert((t.serial as int - s as int) % 0x1_0000_0000 == t.serial as int - s as int);
                            } else {
                                assert((t.serial as int - s as int) % 0x1_0000_0000 == t.serial as int - s as int + 0x1_0000_0000);
                            }
                        }
                    },
                    None => {},
                }
                assert(hit == cancels(t, node, part, prop, older_than));
            }
            if hit {
                removed.push(t);
            } else {
                kept.push(t);
            }
            proof {
                assert(old_list.take(i + 1) =~= old_list.take(i as int).push(t));
                old_list.take(i as int).lemma_filter_push(t, |t: TransRecord| !cancels(t, node, part, prop, older_than));
                old_list.take(i as int).lemma_filter_push(t, |t: TransRecord| cancels(t, node, part, prop, older_than));
            }
            i = i + 1;
        }
        proof {
            assert(old_list.take(old_list.len() as int) =~= old_list);
        }
        self.list = kept;
        removed
    }

    /// Forgets the transitions of deleted nodes. Returns them (their animations stop; their
    /// style entries went away with the nodes); the others keep their order.
    pub fn forget_nodes(&mut self, ids: &Vec<NodeId>) -> (removed: Vec<TransRecord>)
        ensures
            final(self).list@ == old(self).list@.filter(|t: TransRecord| !ids@.contains(t.node)),
            removed@ == old(self).list@.filter(|t: TransRecord| ids@.contains(t.node)),
            final(self).next_serial == old(self).next_serial,
    {
        let ghost old_list = self.list@;
        let mut kept: Vec<TransRecord> = Vec::new();
        let mut removed: Vec<TransRecord> = Vec::new();
        let mut i: usize = 0;
        while i < self.list.len()
            invariant
                i <= self.list@.len(),
                self.list@ == old_list,
                kept@ == old_list.take(i as int).filter(|t: TransRecord| !ids@.contains(t.node)),
                removed@ == old_list.take(i as int).filter(|t: TransRecord| ids@.contains(t.node)),
            decreases self.list@.len() - i,
        {
            let t = self.list[i];
            if holds_node(ids, t.node) {
                removed.push(t);
            } else {
                kept.push(t);
            }
            proof {
                assert(old_list.take(i + 1) =~= old_list.take(i as int).push(t));
                old_list.take(i as int).lemma_filter_push(t, |t: TransRecord| !ids@.contains(t.node));
                old_list.take(i as int).lemma_filter_push(t, |t: TransRecord| ids@.contains(t.node));
            }
            i = i + 1;
        }
        proof {
            assert(old_list.take(old_list.len() as int) =~= old_list);
        }
        self.list = kept;
        removed
    }
}

/// Whether `v` holds `id`.
fn holds_node(v: &Vec<NodeId>, id: NodeId) -> (b: bool)
    ensures
        b == v@.contains(id),
{
    let mut i: usize = 0;
    while i < v.len()
        invariant
            i <= v@.len(),
            forall|k: int| 0 <= k < i ==> v@[k] != id,
        decreases v@.len() - i,
    {
        if v[i].slot == id.slot && v[i].gen == id.gen {
            assert(v@[i as int] == id);
            return true;
        }
        i = i + 1;
    }
    false
}

/// A transition is never older than itself: cancelling the transitions older than a
/// starting one keeps that one.
pub proof fn lemma_not_older_than_itself(s: u32)
    ensures
        !older(s, s),
{
}

} // verus!
