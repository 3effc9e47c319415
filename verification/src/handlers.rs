//! User event handlers ([`EventFilter`], [`HandlerList`]) and the decisions of the event
//! dispatcher: how the results of a node's widget and handlers combine, and whether the
//! event continues on the parent.
use vstd::prelude::*;
use crate::event::{EventCode, EventResult, bubbling};
use crate::ids::{HandlerId, NodeId};

verus! {

/// Which events a handler receives.
#[derive(Clone, Copy, Debug, PartialEq, Eq, Structural, Hash)]
pub enum EventFilter {
    /// Every event.
    All,
    /// Only events with this code.
    Code(EventCode),
}

/// Whether filter `f` lets events with code `c` through.
pub open spec fn filter_matches(f: EventFilter, c: EventCode) -> bool {
    match f {
        EventFilter::All => true,
        EventFilter::Code(x) => x == c,
    }
}

impl EventFilter {
    /// Whether the filter lets events with `code` through.
    pub fn matches(self, code: EventCode) -> (b: bool)
        ensures
            b == filter_matches(self, code),
    {
        match self {
            EventFilter::All => true,
            EventFilter::Code(c) => c == code,
        }
    }
}

/// One registered handler: its id, its filter, and whether it is in its slot (a handler is
/// taken out of its slot while it runs).
#[derive(Clone, Copy, Debug, PartialEq, Eq, Structural)]
pub struct HandlerEntry {
    pub id: HandlerId,
    pub filter: EventFilter,
    pub present: bool,
}

/// The user handlers of one node, in registration order (the closures themselves are kept
/// by the caller, by id).
#[derive(Clone, Debug)]
pub struct HandlerList {
    pub list: Vec<HandlerEntry>,
}

/// Whether entry `e` is the kind of handler [`HandlerList::take_next`] looks for.
pub open spec fn eligible(e: HandlerEntry, after: Option<HandlerId>, limit: HandlerId, code: EventCode) -> bool {
    &&& match after { Some(a) => e.id.0 > a.0, None => true }
    &&& e.id.0 < limit.0
    &&& filter_matches(e.filter, code)
    &&& e.present
}

impl HandlerList {
    /// No handlers.
    pub fn new() -> (h: HandlerList)
        ensures
            h.list@.len() == 0,
    {
        HandlerList { list: Vec::new() }
    }

    /// Number of handlers.
    pub fn len(&self) -> (n: usize)
        ensures
            n == self.list@.len(),
    {
        self.list.len()
    }

    /// Registers handler `id` for the events `filter` selects (last in order).
    pub fn add(&mut self, id: HandlerId, filter: EventFilter)
        ensures
            final(self).list@ == old(self).list@.push(HandlerEntry { id, filter, present: true }),
    {
        self.list.push(HandlerEntry { id, filter, present: true });
    }

    /// Takes the first handler after `after` (exclusive) and before `limit` (exclusive)
    /// that matches `code` and is in its slot; it is marked as running.
    pub fn take_next(&mut self, after: Option<HandlerId>, limit: HandlerId, code: EventCode) -> (r: Option<HandlerId>)
        ensures
            match r {
                None => final(self).list@ == old(self).list@
                    && forall|k: int| 0 <= k < old(self).list@.len() ==> !eligible(#[trigger] old(self).list@[k], after, limit, code),
                Some(h) => exists|j: int| 0 <= j < old(self).list@.len()
                    && eligible(old(self).list@[j], after, limit, code)
                    && old(self).list@[j].id == h
                    && (forall|k: int| 0 <= k < j ==> !eligible(#[trigger] old(self).list@[k], after, limit, code))
                    && final(self).list@ == old(self).list@.update(j, HandlerEntry { present: false, ..old(self).list@[j] }),
            },
            forall|n: u32| #[trigger] issued_below(old(self).list@, n) ==> issued_below(final(self).list@, n),
    {
        let mut i: usize = 0;
        while i < self.list.len()
            invariant
                i <= self.list@.len(),
                self.list@ == old(self).list@,
                forall|k: int| 0 <= k < i ==> !eligible(#[trigger] self.list@[k], after, limit, code),
            decreases self.list@.len() - i,
        {
            let e = self.list[i];
            let after_ok = match after {
                Some(a) => e.id.0 > a.0,
                None => true,
            };
            if after_ok && e.id.0 < limit.0 && e.filter.matches(code) && e.present {
                self.list.set(i, HandlerEntry { present: false, ..e });
                proof {
                    assert forall|n: u32| #[trigger] issued_below(old(self).list@, n) implies issued_below(self.list@, n) by {
                        lemma_update_issued(old(self).list@, i as int, HandlerEntry { present: false, ..e }, n);
                    }
                }
                return Some(e.id);
            }
            i = i + 1;
        }
        None
    }

    /// Puts handler `id` back into its slot after it ran. Returns `false` when it is gone
    /// (it removed itself) or was not taken.
    pub fn put_back(&mut self, id: HandlerId) -> (r: bool)
        ensures
            !contains_id(old(self).list@, id) ==> !r && final(self).list@ == old(self).list@,
            contains_id(old(self).list@, id) ==> exists|j: int| 0 <= j < old(self).list@.len() && old(self).list@[j].id == id
                && (forall|k: int| 0 <= k < j ==> old(self).list@[k].id != id)
                && r == !old(self).list@[j].present
                && final(self).list@ == (if r { old(self).list@.update(j, HandlerEntry { present: true, ..old(self).list@[j] }) } else { old(self).list@ }),
            forall|n: u32| #[trigger] issued_below(old(self).list@, n) ==> issued_below(final(self).list@, n),
    {
        let mut i: usize = 0;
        while i < self.list.len()
            invariant
                i <= self.list@.len(),
                self.list@ == old(self).list@,
                forall|k: int| 0 <= k < i ==> self.list@[k].id != id,
            decreases self.list@.len() - i,
        {
            let e = self.list[i];
            if e.id.0 == id.0 {
                assert(self.list@[i as int].id == id);
                if !e.present {
                    self.list.set(i, HandlerEntry { present: true, ..e });
                    proof {
                        assert forall|n: u32| #[trigger] issued_below(old(self).list@, n) implies issued_below(self.list@, n) by {
                            lemma_update_issued(old(self).list@, i as int, HandlerEntry { present: true, ..e }, n);
                        }
                    }
                    return true;
                }
                return false;
            }
            i = i + 1;
        }
        false
    }

    /// Removes handler `id`. Returns whether it existed; in a list with unique ids (as
    /// [`HandlerIds::register`] keeps them) exactly one entry goes.
    pub fn remove(&mut self, id: HandlerId) -> (r: bool)
        ensures
            final(self).list@ == old(self).list@.filter(|e: HandlerEntry| e.id != id),
            r == contains_id(old(self).list@, id),
            !r ==> final(self).list@ == old(self).list@,
            unique_ids(old(self).list@) && r ==> final(self).list@.len() == old(self).list@.len() - 1,
            forall|n: u32| #[trigger] issued_below(old(self).list@, n) ==> issued_below(final(self).list@, n),
    {
        let ghost old_list = self.list@;
        let mut kept: Vec<HandlerEntry> = Vec::new();
        let mut found = false;
        let mut i: usize = 0;
        while i < self.list.len()
            invariant
                i <= self.list@.len(),
                self.list@ == old_list,
                kept@ == old_list.take(i as int).filter(|e: HandlerEntry| e.id != id),
                found == exists|k: int| 0 <= k < i && old_list[k].id == id,
            decreases self.list@.len() - i,
        {
            let e = self.list[i];
            if e.id.0 != id.0 {
                kept.push(e);
            } else {
                found = true;
            }
            proof {
                assert(old_list.take(i + 1) =~= old_list.take(i as int).push(e));
                old_list.take(i as int).lemma_filter_push(e, |e: HandlerEntry| e.id != id);
            }
            i = i + 1;
        }
        proof {
            assert(old_list.take(old_list.len() as int) =~= old_list);
            if !found {
                lemma_filter_keeps_all(old_list, id);
            }
            if unique_ids(old_list) && found {
                lemma_remove_one(old_list, id);
            }
            assert forall|n: u32| #[trigger] issued_below(old_list, n) implies issued_below(kept@, n) by {
                lemma_filter_issued(old_list, id, n);
            }
        }
        self.list = kept;
        found
    }
}

/// The handler ids the engine hands out, in increasing order (wrapping at the end like a
/// `u32` counter).
#[derive(Clone, Copy, Debug, PartialEq, Eq, Structural)]
pub struct HandlerIds {
    pub next: u32,
}

impl HandlerIds {
    /// No id handed out yet.
    pub fn new() -> (r: HandlerIds)
        ensures
            r.next == 0,
    {
        HandlerIds { next: 0 }
    }

    /// The id the next handler gets: a dispatch runs only the handlers below it, so
    /// handlers added while it runs wait for the next event.
    pub fn limit(&self) -> (h: HandlerId)
        ensures
            h.0 == self.next,
    {
        HandlerId(self.next)
    }

    /// Registers a handler for the events `filter` selects on `list` (last in order) under
    /// the next id, and returns the id. While the counter has not wrapped, a list whose
    /// handlers all got their ids from this counter keeps unique ids.
    pub fn register(&mut self, list: &mut HandlerList, filter: EventFilter) -> (h: HandlerId)
        ensures
            h.0 == old(self).next,
            final(self).next == (if old(self).next == u32::MAX { 0 } else { old(self).next + 1 }),
            final(list).list@ == old(list).list@.push(HandlerEntry { id: h, filter, present: true }),
            old(self).next < u32::MAX && issued_below(old(list).list@, old(self).next)
                ==> issued_below(final(list).list@, final(self).next),
    {
        let h = HandlerId(self.next);
        self.next = if self.next == u32::MAX { 0 } else { self.next + 1 };
        let ghost before = list.list@;
        list.add(h, filter);
        proof {
            let t = list.list@;
            if old(self).next < u32::MAX && issued_below(before, old(self).next) {
                assert forall|k: int| 0 <= k < t.len() implies (#[trigger] t[k]).id.0 < self.next by {
                    if k < before.len() {
                        assert(t[k] == before[k]);
                    }
                }
                assert forall|i: int, j: int| 0 <= i < j < t.len() implies (#[trigger] t[i]).id != (#[trigger] t[j]).id by {
                    if j == before.len() {
                        assert(t[i] == before[i]);
                    } else {
                        assert(t[i] == before[i] && t[j] == before[j]);
                    }
                }
            }
        }
        h
    }
}

/// A list issued below one bound is issued below any larger one (the lists of other nodes
/// stay valid while the counter moves on).
pub proof fn lemma_issued_grow(s: Seq<HandlerEntry>, n: u32, m: u32)
    requires
        issued_below(s, n),
        n <= m,
    ensures
        issued_below(s, m),
{
}

/// The event codes handed out for application events.
#[derive(Clone, Copy, Debug, PartialEq, Eq, Structural)]
pub struct CodeRegistry {
    pub next: u16,
}

impl CodeRegistry {
    /// No codes handed out yet.
    pub fn new() -> (r: CodeRegistry)
        ensures
            r.next == 0,
    {
        CodeRegistry { next: 0 }
    }

    /// A new event code for application events (LVGL `lv_event_register_id`): `Custom(0)`,
    /// `Custom(1)`, … (wrapping after 65 536 codes).
    pub fn register_event_code(&mut self) -> (c: EventCode)
        ensures
            c == EventCode::Custom(old(self).next),
            final(self).next == (if old(self).next == u16::MAX { 0 } else { old(self).next + 1 }),
    {
        let c = EventCode::Custom(self.next);
        self.next = self.next.wrapping_add(1);
        c
    }
}

/// Whether a handler list holds handler `id`.
pub open spec fn contains_id(s: Seq<HandlerEntry>, id: HandlerId) -> bool {
    exists|k: int| 0 <= k < s.len() && s[k].id == id
}

proof fn lemma_filter_keeps_all(s: Seq<HandlerEntry>, id: HandlerId)
    requires
        !contains_id(s, id),
    ensures
        s.filter(|e: HandlerEntry| e.id != id) == s,
    decreases s.len(),
{
    if s.len() > 0 {
        let init = s.drop_last();
        assert(!contains_id(init, id)) by {
            if contains_id(init, id) {
                let k = choose|k: int| 0 <= k < init.len() && init[k].id == id;
                assert(s[k].id == id);
            }
        }
        lemma_filter_keeps_all(init, id);
        assert(s.last().id != id) by {
            assert(s[s.len() - 1].id == s.last().id);
        }
        init.lemma_filter_push(s.last(), |e: HandlerEntry| e.id != id);
        assert(init.push(s.last()) =~= s);
    } else {
        assert(s.filter(|e: HandlerEntry| e.id != id) =~= s);
    }
}

/// Whether every handler of `s` has an id below `next` and no two share an id: the lists
/// that registering under ids handed out by a [`HandlerIds`] produces.
pub open spec fn issued_below(s: Seq<HandlerEntry>, next: u32) -> bool {
    &&& unique_ids(s)
    &&& forall|k: int| 0 <= k < s.len() ==> (#[trigger] s[k]).id.0 < next
}

/// Marking a handler as running or back in its slot keeps the ids of a list.
proof fn lemma_update_issued(s: Seq<HandlerEntry>, j: int, e: HandlerEntry, next: u32)
    requires
        issued_below(s, next),
        0 <= j < s.len(),
        e.id == s[j].id,
    ensures
        issued_below(s.update(j, e), next),
{
    let t = s.update(j, e);
    assert forall|k: int| 0 <= k < t.len() implies (#[trigger] t[k]).id.0 < next by {
        assert(t[k].id == s[k].id);
    }
    assert forall|a: int, b: int| 0 <= a < b < t.len() implies (#[trigger] t[a]).id != (#[trigger] t[b]).id by {
        assert(t[a].id == s[a].id && t[b].id == s[b].id);
    }
}

/// Dropping handlers keeps the ids of a list issued below `next`.
proof fn lemma_filter_issued(s: Seq<HandlerEntry>, id: HandlerId, next: u32)
    requires
        issued_below(s, next),
    ensures
        issued_below(s.filter(|e: HandlerEntry| e.id != id), next),
    decreases s.len(),
{
    let t = s.filter(|e: HandlerEntry| e.id != id);
    if s.len() > 0 {
        let init = s.drop_last();
        assert(init.push(s.last()) =~= s);
        assert(issued_below(init, next)) by {
            assert forall|k: int| 0 <= k < init.len() implies (#[trigger] init[k]).id.0 < next by {
                assert(init[k] == s[k]);
            }
            assert forall|i: int, j: int| 0 <= i < j < init.len() implies (#[trigger] init[i]).id != (#[trigger] init[j]).id by {
                assert(s[i] == init[i] && s[j] == init[j]);
            }
        }
        lemma_filter_issued(init, id, next);
        init.lemma_filter_push(s.last(), |e: HandlerEntry| e.id != id);
        let ti = init.filter(|e: HandlerEntry| e.id != id);
        if s.last().id != id {
            assert(t =~= ti.push(s.last()));
            assert forall|i: int, j: int| 0 <= i < j < t.len() implies (#[trigger] t[i]).id != (#[trigger] t[j]).id by {
                if j == t.len() - 1 {
                    assert(t[i] == ti[i]);
                    assert(ti.contains(ti[i]));
                    init.lemma_filter_contains_rev(|e: HandlerEntry| e.id != id, ti[i]);
                    assert(init.contains(ti[i]));
                    let q = init.index_of(ti[i]);
                    assert(s[q] == init[q]);
                    assert(s[s.len() - 1] == s.last());
                } else {
                    assert(t[i] == ti[i] && t[j] == ti[j]);
                }
            }
        } else {
            assert(t =~= ti);
        }
    } else {
        assert(t =~= s);
    }
}

/// Whether no two handlers of `s` share an id.
pub open spec fn unique_ids(s: Seq<HandlerEntry>) -> bool {
    forall|i: int, j: int| 0 <= i < j < s.len() ==> (#[trigger] s[i]).id != (#[trigger] s[j]).id
}

/// Registering a handler under a fresh id keeps the ids unique.
pub proof fn lemma_add_keeps_unique(s: Seq<HandlerEntry>, e: HandlerEntry)
    requires
        unique_ids(s),
        !contains_id(s, e.id),
    ensures
        unique_ids(s.push(e)),
{
    let t = s.push(e);
    assert forall|i: int, j: int| 0 <= i < j < t.len() implies (#[trigger] t[i]).id != (#[trigger] t[j]).id by {
        if j == s.len() {
            assert(s[i] == t[i]);
            if t[i].id == e.id {
                assert(contains_id(s, e.id));
            }
        }
    }
}

/// Removing a registered handler from a list with unique ids removes exactly one entry.
pub proof fn lemma_remove_one(s: Seq<HandlerEntry>, id: HandlerId)
    requires
        unique_ids(s),
        contains_id(s, id),
    ensures
        s.filter(|e: HandlerEntry| e.id != id).len() == s.len() - 1,
    decreases s.len(),
{
    let init = s.drop_last();
    assert(unique_ids(init)) by {
        assert forall|i: int, j: int| 0 <= i < j < init.len() implies (#[trigger] init[i]).id != (#[trigger] init[j]).id by {
            assert(s[i] == init[i] && s[j] == init[j]);
        }
    }
    init.lemma_filter_push(s.last(), |e: HandlerEntry| e.id != id);
    assert(init.push(s.last()) =~= s);
    if s.last().id == id {
        assert(!contains_id(init, id)) by {
            if contains_id(init, id) {
                let k = choose|k: int| 0 <= k < init.len() && init[k].id == id;
                assert(s[k].id == s[s.len() - 1].id);
            }
        }
        lemma_filter_keeps_all(init, id);
    } else {
        assert(contains_id(init, id)) by {
            let k = choose|k: int| 0 <= k < s.len() && s[k].id == id;
            assert(k != s.len() - 1);
            assert(init[k] == s[k]);
        }
        lemma_remove_one(init, id);
    }
}

/// Removing a handler undoes registering it: when `id` is not registered, adding it and
/// then removing it leaves the list as it was.
pub proof fn lemma_remove_undoes_add(s: Seq<HandlerEntry>, id: HandlerId, filter: EventFilter)
    requires
        !contains_id(s, id),
    ensures
        s.push(HandlerEntry { id, filter, present: true }).filter(|e: HandlerEntry| e.id != id) == s,
{
    lemma_filter_keeps_all(s, id);
    s.lemma_filter_push(HandlerEntry { id, filter, present: true }, |e: HandlerEntry| e.id != id);
}

/// A removed handler is gone: after [`HandlerList::remove`] the list holds no handler with
/// that id, so a handler that removes itself while it runs is not put back.
pub proof fn lemma_removed_is_gone(s: Seq<HandlerEntry>, id: HandlerId)
    ensures
        !contains_id(s.filter(|e: HandlerEntry| e.id != id), id),
{
    let t = s.filter(|e: HandlerEntry| e.id != id);
    if contains_id(t, id) {
        let k = choose|k: int| 0 <= k < t.len() && t[k].id == id;
        s.lemma_filter_pred(|e: HandlerEntry| e.id != id, k);
    }
}

/// After the widget's own handling of an event: whether the node's user handlers are
/// skipped (`Consumed`, or the widget prevented the default), and whether bubbling stops
/// (`Stop`, or the widget stopped it).
pub fn after_widget(r: EventResult, stop_bubbling: bool, prevent_default: bool) -> (out: (bool, bool))
    ensures
        out.0 == (r == EventResult::Consumed || prevent_default),
        out.1 == (stop_bubbling || r == EventResult::Stop),
{
    let consumed = match r {
        EventResult::Consumed => true,
        _ => false,
    } || prevent_default;
    let stop = stop_bubbling || match r {
        EventResult::Stop => true,
        _ => false,
    };
    (consumed, stop)
}

/// After one user handler: whether bubbling stops (it did before, or the handler returned
/// `Stop` or stopped it) and whether the node's remaining handlers are skipped (`Consumed`,
/// or it prevented the default).
pub fn after_handler(stop: bool, r: EventResult, stop_bubbling: bool, prevent_default: bool) -> (out: (bool, bool))
    ensures
        out.0 == (stop || stop_bubbling || r == EventResult::Stop),
        out.1 == (r == EventResult::Consumed || prevent_default),
{
    let s = stop || stop_bubbling || match r {
        EventResult::Stop => true,
        _ => false,
    };
    let c = match r {
        EventResult::Consumed => true,
        _ => false,
    } || prevent_default;
    (s, c)
}

/// Where the dispatch of an event with code `code` goes after a node whose handlers neither
/// consumed nor stopped it: the node's `parent` when the code bubbles (always, never, or when
/// the node has `EVENT_BUBBLE`: `bubble_flag`), else nowhere.
pub fn bubble_to(code: EventCode, bubble_flag: bool, parent: Option<NodeId>) -> (r: Option<NodeId>)
    ensures
        r == (if (match bubbling(code) { Some(b) => b, None => bubble_flag }) { parent } else { None::<NodeId> }),
{
    let b = match code.bubbles() {
        Some(b) => b,
        None => bubble_flag,
    };
    if b { parent } else { None }
}

/// The result of a dispatch that ended at a node: `Consumed` when it was consumed, `Stop`
/// when bubbling was stopped, else `Continue`.
pub fn dispatch_result(consumed: bool, stop: bool) -> (r: EventResult)
    ensures
        r == (if consumed { EventResult::Consumed } else if stop { EventResult::Stop } else { EventResult::Continue }),
{
    if consumed {
        EventResult::Consumed
    } else if stop {
        EventResult::Stop
    } else {
        EventResult::Continue
    }
}

/// Where a dispatch stands.
#[derive(Clone, Copy, Debug, PartialEq, Eq, Structural)]
pub struct DispatchState {
    /// The node the event is at.
    pub node: NodeId,
    pub code: EventCode,
    /// Handlers registered from this id on (during the dispatch) are not run.
    pub limit: HandlerId,
    /// The last handler run on the current node.
    pub after: Option<HandlerId>,
    /// Whether bubbling was stopped on the current node.
    pub stop: bool,
    /// Whether the dispatch is over.
    pub done: bool,
}

/// What happened since the last step.
#[derive(Clone, Copy, Debug, PartialEq, Eq, Structural)]
pub enum DispatchEvent {
    /// The dispatch begins; whether the start node exists.
    Start { alive: bool },
    /// The base object behaviour ran on the current node; whether the node still exists.
    ObjectDone { alive: bool },
    /// The node's widget handled the event.
    WidgetDone { alive: bool, result: EventResult, stop_bubbling: bool, prevent_default: bool },
    /// The next user handler (`id`) ran.
    HandlerDone { id: HandlerId, alive: bool, result: EventResult, stop_bubbling: bool, prevent_default: bool },
    /// No user handler is left on the node.
    NoHandler,
    /// The parent of the current node and whether the node has `EVENT_BUBBLE`.
    Parent { parent: Option<NodeId>, bubble_flag: bool },
}

/// What the dispatch asks for next.
#[derive(Clone, Copy, Debug, PartialEq, Eq, Structural)]
pub enum DispatchAction {
    /// Run the base object behaviour on the node.
    RunObject(NodeId),
    /// Let the node's widget handle the event.
    RunWidget(NodeId),
    /// Run the node's next user handler (`HandlerList::take_next` with these bounds; put it
    /// back afterwards), or report that there is none.
    RunHandler { node: NodeId, after: Option<HandlerId>, limit: HandlerId },
    /// Report the node's parent and its bubble flag.
    AskParent(NodeId),
    /// The dispatch is over with this result.
    Finish(EventResult),
}

/// One step of the dispatch of an event (see [`dispatch_step`]). On each node: the base
/// object behaviour, then the widget, then the user handlers in registration order (those
/// registered during the dispatch are not run; all are skipped when the widget consumed
/// the event or prevented the default). A node deleted on the way ends the dispatch as
/// `Consumed`; a handler that consumed the event or prevented the default ends it as
/// `Consumed`; a stopped node ends it as `Stop`; else the event moves on to the parent when
/// the code bubbles (always, never, or with the node's `EVENT_BUBBLE`), and ends as
/// `Continue` at the top. An event out of turn leaves the state as it is and finishes
/// with the current result.
pub open spec fn dispatch_model(s: DispatchState, ev: DispatchEvent) -> (DispatchState, DispatchAction) {
    let finish = |r: EventResult| (DispatchState { done: true, ..s }, DispatchAction::Finish(r));
    if s.done {
        (s, DispatchAction::Finish(if s.stop { EventResult::Stop } else { EventResult::Continue }))
    } else {
        match ev {
            DispatchEvent::Start { alive } => if alive {
                (DispatchState { after: None, stop: false, ..s }, DispatchAction::RunObject(s.node))
            } else {
                finish(EventResult::Continue)
            },
            DispatchEvent::ObjectDone { alive } => if alive {
                (s, DispatchAction::RunWidget(s.node))
            } else {
                finish(EventResult::Consumed)
            },
            DispatchEvent::WidgetDone { alive, result, stop_bubbling, prevent_default } => if !alive {
                finish(EventResult::Consumed)
            } else if result == EventResult::Consumed || prevent_default {
                finish(EventResult::Consumed)
            } else {
                let s1 = DispatchState { after: None, stop: stop_bubbling || result == EventResult::Stop, ..s };
                (s1, DispatchAction::RunHandler { node: s.node, after: None, limit: s.limit })
            },
            DispatchEvent::HandlerDone { id, alive, result, stop_bubbling, prevent_default } => if !alive {
                finish(EventResult::Consumed)
            } else if result == EventResult::Consumed || prevent_default {
                finish(EventResult::Consumed)
            } else {
                let s1 = DispatchState { after: Some(id), stop: s.stop || stop_bubbling || result == EventResult::Stop, ..s };
                (s1, DispatchAction::RunHandler { node: s.node, after: Some(id), limit: s.limit })
            },
            DispatchEvent::NoHandler => if s.stop {
                (DispatchState { done: true, ..s }, DispatchAction::Finish(EventResult::Stop))
            } else {
                (s, DispatchAction::AskParent(s.node))
            },
            DispatchEvent::Parent { parent, bubble_flag } => {
                let bubble = match bubbling(s.code) { Some(b) => b, None => bubble_flag };
                match parent {
                    Some(p) => if bubble {
                        (DispatchState { node: p, after: None, stop: false, ..s }, DispatchAction::RunObject(p))
                    } else {
                        finish(EventResult::Continue)
                    },
                    None => finish(EventResult::Continue),
                }
            },
        }
    }
}

/// A dispatch of `code` starting at `start`; handlers with ids from `limit` on (registered
/// during the dispatch) are not run.
pub fn dispatch_begin(start: NodeId, code: EventCode, limit: HandlerId) -> (s: DispatchState)
    ensures
        s == (DispatchState { node: start, code, limit, after: None, stop: false, done: false }),
{
    DispatchState { node: start, code, limit, after: None, stop: false, done: false }
}

/// One step of the dispatch of an event (see [`dispatch_model`]).
pub fn dispatch_step(s: &DispatchState, ev: DispatchEvent) -> (r: (DispatchState, DispatchAction))
    ensures
        r == dispatch_model(*s, ev),
{
    let s = *s;
    if s.done {
        return (s, DispatchAction::Finish(if s.stop { EventResult::Stop } else { EventResult::Continue }));
    }
    let fin = DispatchState { done: true, ..s };
    match ev {
        DispatchEvent::Start { alive } => if alive {
            (DispatchState { after: None, stop: false, ..s }, DispatchAction::RunObject(s.node))
        } else {
            (fin, DispatchAction::Finish(EventResult::Continue))
        },
        DispatchEvent::ObjectDone { alive } => if alive {
            (s, DispatchAction::RunWidget(s.node))
        } else {
            (fin, DispatchAction::Finish(EventResult::Consumed))
        },
        DispatchEvent::WidgetDone { alive, result, stop_bubbling, prevent_default } => {
            let (consumed, stop) = after_widget(result, stop_bubbling, prevent_default);
            if !alive || consumed {
                (fin, DispatchAction::Finish(EventResult::Consumed))
            } else {
                (DispatchState { after: None, stop, ..s }, DispatchAction::RunHandler { node: s.node, after: None, limit: s.limit })
            }
        },
        DispatchEvent::HandlerDone { id, alive, result, stop_bubbling, prevent_default } => {
            let (stop, consumed) = after_handler(s.stop, result, stop_bubbling, prevent_default);
            if !alive || consumed {
                (fin, DispatchAction::Finish(EventResult::Consumed))
            } else {
                (DispatchState { after: Some(id), stop, ..s }, DispatchAction::RunHandler { node: s.node, after: Some(id), limit: s.limit })
            }
        },
        DispatchEvent::NoHandler => if s.stop {
            (fin, DispatchAction::Finish(EventResult::Stop))
        } else {
            (s, DispatchAction::AskParent(s.node))
        },
        DispatchEvent::Parent { parent, bubble_flag } => {
            match bubble_to(s.code, bubble_flag, parent) {
                Some(p) => (DispatchState { node: p, after: None, stop: false, ..s }, DispatchAction::RunObject(p)),
                None => (fin, DispatchAction::Finish(EventResult::Continue)),
            }
        },
    }
}

} // verus!
