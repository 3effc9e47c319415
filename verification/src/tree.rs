//! The widget tree: [`Node`], [`Tree`] and the invariant checker.
//!
//! Nodes live in a generational arena. Children form an intrusive doubly linked list
//! (`first_child`/`last_child` on the parent, `prev`/`next` on the siblings), so insertion and
//! removal are O(1) and no node owns a vector of children.
use vstd::prelude::*;
use crate::error::{EngineError, InvariantError};
use crate::flags::{ObjFlags, State, LayoutDirty, HIDDEN, OVERFLOW_VISIBLE, LAYOUT_PASSTHROUGH};
use crate::geom::{Point, Rect, meet};
use crate::ids::{GroupId, NodeId};
use crate::widget::WidgetClass;
use crate::ids::{node_id_text, push_node_id};
use crate::text::{push_char, push_str, push_signed, signed_decimal};
use crate::names::{flag_text, obj_flag_name, state_flag_name, push_obj_flag_names, push_state_names};

verus! {

broadcast use vstd::seq_lib::group_seq_properties;

/// One node of the tree: links, the widget class, flags, state and geometry.
#[derive(Clone, Copy, Debug)]
pub struct Node {
    /// The parent (read with [`Node::parent`]).
    pub parent: Option<NodeId>,
    /// The first child.
    pub first_child: Option<NodeId>,
    /// The last child.
    pub last_child: Option<NodeId>,
    /// The previous sibling.
    pub prev: Option<NodeId>,
    /// The next sibling.
    pub next: Option<NodeId>,
    /// The number of children.
    pub child_count: u16,
    /// The widget class.
    pub class: WidgetClass,
    /// Behaviour flags.
    pub flags: ObjFlags,
    /// State.
    pub state: State,
    /// Absolute coordinates.
    pub coords: Rect,
    /// Scroll offset of the children.
    pub scroll: Point,
    /// Extra draw size around the coordinates.
    pub ext_draw: u16,
    /// Pending layout work.
    pub layout_dirty: LayoutDirty,
    /// The focus group the node belongs to.
    pub group: Option<GroupId>,
}

impl Node {
    /// The parent (`None` for screens and layers).
    pub fn parent(&self) -> (r: Option<NodeId>)
        ensures
            r == self.parent,
    {
        self.parent
    }

    /// The first child.
    pub fn first_child(&self) -> (r: Option<NodeId>)
        ensures
            r == self.first_child,
    {
        self.first_child
    }

    /// The last child (drawn last, topmost).
    pub fn last_child(&self) -> (r: Option<NodeId>)
        ensures
            r == self.last_child,
    {
        self.last_child
    }

    /// The next sibling.
    pub fn next_sibling(&self) -> (r: Option<NodeId>)
        ensures
            r == self.next,
    {
        self.next
    }

    /// The previous sibling.
    pub fn prev_sibling(&self) -> (r: Option<NodeId>)
        ensures
            r == self.prev,
    {
        self.prev
    }

    /// Number of children.
    pub fn child_count(&self) -> (c: u16)
        ensures
            c == self.child_count,
    {
        self.child_count
    }

    /// Flags.
    pub fn flags(&self) -> (f: ObjFlags)
        ensures
            f == self.flags,
    {
        self.flags
    }

    /// State.
    pub fn state(&self) -> (s: State)
        ensures
            s == self.state,
    {
        self.state
    }

    /// Absolute coordinates.
    pub fn coords(&self) -> (r: Rect)
        ensures
            r == self.coords,
    {
        self.coords
    }

    /// Scroll offset of the children.
    pub fn scroll(&self) -> (r: Point)
        ensures
            r == self.scroll,
    {
        self.scroll
    }

    /// Extra draw size around the coordinates (shadow, outline, transform).
    pub fn ext_draw(&self) -> (r: u16)
        ensures
            r == self.ext_draw,
    {
        self.ext_draw
    }

    /// Pending layout work.
    pub fn layout_dirty(&self) -> (r: LayoutDirty)
        ensures
            r == self.layout_dirty,
    {
        self.layout_dirty
    }

    /// Whether the node has the `HIDDEN` flag.
    pub fn is_hidden(&self) -> (b: bool)
        ensures
            b == (self.flags.bits & crate::flags::HIDDEN == crate::flags::HIDDEN),
    {
        self.flags.contains(crate::flags::HIDDEN)
    }
}

#[derive(Clone, Copy, Debug)]
struct Slot {
    gen: u16,
    node: Option<Node>,
}

/// The widget tree: an arena of [`Node`]s plus the list of roots (screens and layers).
pub struct Tree {
    slots: Vec<Slot>,
    free: Vec<u16>,
    count: usize,
    roots: Vec<NodeId>,
    epoch: u32,
    live: Ghost<Set<NodeId>>,
    kids: Ghost<Map<NodeId, Seq<NodeId>>>,
    anc: Ghost<Map<NodeId, Seq<NodeId>>>,
}

/// The element before position `i` of `s`.
pub open spec fn prev_in(s: Seq<NodeId>, i: int) -> Option<NodeId> {
    if i == 0 { None } else { Some(s[i - 1]) }
}

/// The element after position `i` of `s`.
pub open spec fn next_in(s: Seq<NodeId>, i: int) -> Option<NodeId> {
    if i + 1 >= s.len() { None } else { Some(s[i + 1]) }
}

/// The first element of `s`.
pub open spec fn first_in(s: Seq<NodeId>) -> Option<NodeId> {
    if s.len() == 0 { None } else { Some(s[0]) }
}

/// The last element of `s`.
pub open spec fn last_in(s: Seq<NodeId>) -> Option<NodeId> {
    if s.len() == 0 { None } else { Some(s[s.len() - 1]) }
}

impl Tree {
    // ---- The model ---------------------------------------------------------------------

    /// Whether `id` refers to a live node.
    pub open spec fn has(&self, id: NodeId) -> bool {
        self.live_set().contains(id)
    }

    /// The live ids.
    pub closed spec fn live_set(&self) -> Set<NodeId> {
        self.live@
    }

    /// The node `id` (meaningful when `has(id)`).
    pub closed spec fn nd(&self, id: NodeId) -> Node {
        self.slots@[id.slot as int].node.unwrap()
    }

    /// The parent of `id`.
    pub open spec fn parent_of(&self, id: NodeId) -> Option<NodeId> {
        self.nd(id).parent
    }

    /// The children of `id`, first to last.
    pub closed spec fn kids_of(&self, id: NodeId) -> Seq<NodeId> {
        self.kids@[id]
    }

    /// The ancestors of `id`, from the parent up to the root.
    pub closed spec fn anc_of(&self, id: NodeId) -> Seq<NodeId> {
        self.anc@[id]
    }

    /// The roots in order.
    pub closed spec fn roots_seq(&self) -> Seq<NodeId> {
        self.roots@
    }

    /// Whether `x` is `root` or one of its descendants.
    pub open spec fn in_subtree(&self, x: NodeId, root: NodeId) -> bool {
        x == root || self.anc_of(x).contains(root)
    }

    /// The nodes of `root`'s subtree.
    pub open spec fn subtree(&self, root: NodeId) -> Set<NodeId> {
        Set::new(|x: NodeId| self.has(x) && self.in_subtree(x, root))
    }

    spec fn slot_holds(&self, id: NodeId) -> bool {
        &&& (id.slot as int) < self.slots@.len()
        &&& self.slots@[id.slot as int].gen == id.gen
        &&& self.slots@[id.slot as int].node is Some
    }

    spec fn arena_wf(&self) -> bool {
        &&& self.slots@.len() <= 65535
        &&& self.live@.finite()
        &&& (forall|id: NodeId| #[trigger] self.live@.contains(id) <==> self.slot_holds(id))
        &&& self.free@.len() + self.count == self.slots@.len()
        &&& self.count == self.live@.len()
        &&& self.free@.no_duplicates()
        &&& (forall|i: int|
            0 <= i < self.free@.len() ==> (#[trigger] self.free@[i] as int) < self.slots@.len()
                && self.slots@[self.free@[i] as int].node is None)
    }

    spec fn child_ok(&self, p: NodeId, ch: Seq<NodeId>, i: int) -> bool {
        &&& self.live@.contains(ch[i])
        &&& self.nd(ch[i]).parent == Some(p)
        &&& self.nd(ch[i]).prev == prev_in(ch, i)
        &&& self.nd(ch[i]).next == next_in(ch, i)
    }

    spec fn node_links_ok(&self, p: NodeId) -> bool {
        let ch = self.kids@[p];
        let n = self.nd(p);
        &&& ch.no_duplicates()
        &&& n.child_count as int == ch.len()
        &&& n.first_child == first_in(ch)
        &&& n.last_child == last_in(ch)
        &&& forall|i: int| 0 <= i < ch.len() ==> #[trigger] self.child_ok(p, ch, i)
    }

    spec fn parent_ok(&self, x: NodeId, detached: Option<NodeId>) -> bool {
        match self.nd(x).parent {
            None => (self.roots@.contains(x) || detached == Some(x)) && self.nd(x).prev is None
                && self.nd(x).next is None,
            Some(p) => self.live@.contains(p) && self.kids@[p].contains(x),
        }
    }

    spec fn anc_ok(&self, x: NodeId) -> bool {
        let a = self.anc@[x];
        &&& (self.nd(x).parent is None <==> a.len() == 0)
        &&& (self.nd(x).parent is Some ==> a[0] == self.nd(x).parent.unwrap())
        &&& forall|i: int|
            0 <= i < a.len() ==> self.live@.contains(#[trigger] a[i]) && self.anc@[a[i]] == a.skip(
                i + 1,
            )
    }

    spec fn roots_ok(&self, detached: Option<NodeId>) -> bool {
        &&& self.roots@.no_duplicates()
        &&& forall|i: int|
            0 <= i < self.roots@.len() ==> self.live@.contains(#[trigger] self.roots@[i])
                && self.nd(self.roots@[i]).parent is None && detached != Some(self.roots@[i])
        &&& match detached {
            None => true,
            Some(d) => self.live@.contains(d) && self.nd(d).parent is None,
        }
    }

    #[verifier::opaque]
    spec fn wf_d(&self, detached: Option<NodeId>) -> bool {
        &&& self.arena_wf()
        &&& self.roots_ok(detached)
        &&& forall|x: NodeId| #[trigger]
            self.live@.contains(x) ==> self.kids@.dom().contains(x) && self.anc@.dom().contains(x)
                && self.node_links_ok(x) && self.parent_ok(x, detached) && self.anc_ok(x)
    }

    /// The tree's structural invariant: parent/child links are consistent, `child_count`
    /// matches, `prev`/`next` are symmetric, there are no cycles, roots have no parent and
    /// every parentless node is a root.
    pub closed spec fn wf(&self) -> bool {
        self.wf_d(None)
    }

    /// The style epoch: incremented whenever an inherited style property may have changed.
    pub closed spec fn epoch_value(&self) -> u32 {
        self.epoch
    }

    /// Number of live nodes.
    pub open spec fn node_count(&self) -> nat {
        self.live_set().len()
    }

    /// Whether `id` is a stale handle: its slot exists and has moved on to another
    /// generation, so no live node answers to it.
    pub closed spec fn retired(&self, id: NodeId) -> bool {
        &&& (id.slot as int) < self.slots@.len()
        &&& self.slots@[id.slot as int].gen != id.gen
    }

    /// Whether the arena's generation counters are those of `o`: no slot was freed or
    /// added, so every stale handle of `o` is still stale (see
    /// [`lemma_gens_retired`](Self::lemma_gens_retired)).
    pub closed spec fn gens_kept(&self, o: &Tree) -> bool {
        &&& self.slots@.len() == o.slots@.len()
        &&& forall|s: int| 0 <= s < o.slots@.len() ==> (#[trigger] self.slots@[s]).gen == o.slots@[s].gen
    }

    /// Operations that keep the generation counters keep every stale handle stale.
    pub proof fn lemma_gens_retired(&self, o: &Tree)
        requires
            self.gens_kept(o),
        ensures
            forall|y: NodeId| #[trigger] o.retired(y) ==> self.retired(y),
    {
        assert forall|y: NodeId| #[trigger] o.retired(y) implies self.retired(y) by {
            assert(self.slots@[y.slot as int].gen == o.slots@[y.slot as int].gen);
        }
    }

    /// A stale handle never resolves: no live node of a well-formed tree answers to a
    /// [`retired`](Self::retired) id. Deleting a node retires its id, and creating, moving,
    /// swapping and deleting other nodes keep it retired (until its slot has been reused
    /// 65 535 more times and its generation counter comes round again).
    pub proof fn lemma_retired_is_dead(&self, id: NodeId)
        requires
            self.wf(),
            self.retired(id),
        ensures
            !self.has(id),
    {
        self.lemma_unfold(None);
        if self.has(id) {
            assert(self.slot_holds(id));
        }
    }

    // ---- Basic queries -----------------------------------------------------------------

    /// An empty tree.
    pub fn new() -> (t: Tree)
        ensures
            t.wf(),
            t.live_set() == Set::<NodeId>::empty(),
            t.roots_seq() == Seq::<NodeId>::empty(),
    {
        let t = Tree {
            slots: Vec::new(),
            free: Vec::new(),
            count: 0,
            roots: Vec::new(),
            epoch: 0,
            live: Ghost(Set::empty()),
            kids: Ghost(Map::empty()),
            anc: Ghost(Map::empty()),
        };
        proof {
            t.lemma_fold(None);
        }
        t
    }

    /// Number of live nodes.
    pub fn len(&self) -> (n: usize)
        requires
            self.wf(),
        ensures
            n == self.node_count(),
    {
        proof {
            self.lemma_unfold(None);
        }
        self.count
    }

    /// Whether the tree has no nodes.
    pub fn is_empty(&self) -> (b: bool)
        requires
            self.wf(),
        ensures
            b == (self.node_count() == 0),
    {
        proof {
            self.lemma_unfold(None);
        }
        self.count == 0
    }

    /// The style epoch.
    pub fn style_epoch(&self) -> (e: u32)
        ensures
            e == self.epoch_value(),
    {
        self.epoch
    }

    /// Whether `id` refers to a live node.
    pub fn contains(&self, id: NodeId) -> (b: bool)
        requires
            self.wf(),
        ensures
            b == self.has(id),
    {
        proof {
            self.lemma_unfold(None);
            assert(self.has(id) <==> self.slot_holds(id));
        }
        let i = id.slot as usize;
        if i < self.slots.len() {
            let s = self.slots[i];
            s.gen == id.gen && s.node.is_some()
        } else {
            false
        }
    }

    /// The node `id`.
    pub fn node(&self, id: NodeId) -> (r: Option<Node>)
        requires
            self.wf(),
        ensures
            r == (if self.has(id) { Some(self.nd(id)) } else { None }),
            self.has(id) ==> self.nd(id).child_count == self.kids_of(id).len(),
    {
        proof {
            self.lemma_unfold(None);
            assert(self.has(id) <==> self.slot_holds(id));
            if self.has(id) {
                assert(self.node_links_ok(id));
            }
        }
        if self.contains(id) {
            self.slots[id.slot as usize].node
        } else {
            None
        }
    }

    /// The parent of `id`.
    pub fn parent(&self, id: NodeId) -> (r: Option<NodeId>)
        requires
            self.wf(),
        ensures
            r == (if self.has(id) { self.parent_of(id) } else { None }),
    {
        match self.node(id) {
            Some(n) => n.parent,
            None => None,
        }
    }

    fn get(&self, id: NodeId) -> (n: Node)
        requires
            (id.slot as int) < self.slots@.len(),
            self.slots@[id.slot as int].node is Some,
        ensures
            n == self.slots@[id.slot as int].node.unwrap(),
    {
        self.slots[id.slot as usize].node.unwrap()
    }

    fn put(&mut self, id: NodeId, n: Node)
        requires
            (id.slot as int) < old(self).slots@.len(),
            old(self).slots@[id.slot as int].node is Some,
        ensures
            final(self).gens_kept(old(self)),
            final(self).slots@ == old(self).slots@.update(
                id.slot as int,
                Slot { gen: old(self).slots@[id.slot as int].gen, node: Some(n) },
            ),
            final(self).free == old(self).free,
            final(self).count == old(self).count,
            final(self).roots == old(self).roots,
            final(self).epoch == old(self).epoch,
            final(self).live == old(self).live,
            final(self).kids == old(self).kids,
            final(self).anc == old(self).anc,
    {
        let i = id.slot as usize;
        let g = self.slots[i].gen;
        self.slots.set(i, Slot { gen: g, node: Some(n) });
    }

    // ---- Lemmas on the model -----------------------------------------------------------

    proof fn lemma_unfold(&self, d: Option<NodeId>)
        requires
            self.wf_d(d),
        ensures
            self.arena_wf(),
            self.roots_ok(d),
            forall|x: NodeId| #[trigger]
                self.live@.contains(x) ==> self.kids@.dom().contains(x) && self.anc@.dom().contains(x)
                    && self.node_links_ok(x) && self.parent_ok(x, d) && self.anc_ok(x),
    {
        reveal(Tree::wf_d);
    }

    proof fn lemma_fold(&self, d: Option<NodeId>)
        requires
            self.arena_wf(),
            self.roots_ok(d),
            forall|x: NodeId| #[trigger]
                self.live@.contains(x) ==> self.kids@.dom().contains(x) && self.anc@.dom().contains(x)
                    && self.node_links_ok(x) && self.parent_ok(x, d) && self.anc_ok(x),
        ensures
            self.wf_d(d),
    {
        reveal(Tree::wf_d);
    }

    proof fn lemma_anc_parent(&self, x: NodeId, d: Option<NodeId>)
        requires
            self.wf_d(d),
            self.live@.contains(x),
            self.nd(x).parent is Some,
        ensures
            self.anc@[x] == seq![self.nd(x).parent.unwrap()] + self.anc@[self.nd(x).parent.unwrap()],
            self.live@.contains(self.nd(x).parent.unwrap()),
    {
        reveal(Tree::wf_d);
        let a = self.anc@[x];
        assert(self.anc_ok(x));
        assert(self.live@.contains(a[0]));
        assert(self.anc@[a[0]] == a.skip(1));
        assert(a =~= seq![a[0]] + a.skip(1));
    }

    /// An ancestor chain never contains its own node and has no repeated node.
    proof fn lemma_anc_acyclic(&self, x: NodeId, d: Option<NodeId>)
        requires
            self.wf_d(d),
            self.live@.contains(x),
        ensures
            !self.anc@[x].contains(x),
            self.anc@[x].no_duplicates(),
    {
        reveal(Tree::wf_d);
        let a = self.anc@[x];
        assert(self.anc_ok(x));
        if a.contains(x) {
            let i = a.index_of(x);
            assert(self.live@.contains(a[i]));
            assert(self.anc@[a[i]] == a.skip(i + 1));
            assert(a.skip(i + 1).len() < a.len());
        }
        assert forall|i: int, j: int| 0 <= i < a.len() && 0 <= j < a.len() && i != j implies a[i]
            != a[j] by {
            assert(self.live@.contains(a[i]));
            assert(self.live@.contains(a[j]));
            assert(self.anc@[a[i]] == a.skip(i + 1));
            assert(self.anc@[a[j]] == a.skip(j + 1));
            assert(a.skip(i + 1).len() != a.skip(j + 1).len());
        }
    }

    /// The ancestor chain plus the node itself is shorter than the node count.
    proof fn lemma_anc_len(&self, x: NodeId, d: Option<NodeId>)
        requires
            self.wf_d(d),
            self.live@.contains(x),
        ensures
            self.anc@[x].len() < self.live@.len(),
    {
        reveal(Tree::wf_d);
        self.lemma_anc_acyclic(x, d);
        let s = self.anc@[x].push(x);
        assert(s.no_duplicates()) by {
            assert forall|i: int, j: int| 0 <= i < s.len() && 0 <= j < s.len() && i != j implies s[i]
                != s[j] by {
                if i < s.len() - 1 && j < s.len() - 1 {
                } else if i == s.len() - 1 {
                    assert(self.anc@[x].contains(s[j]) || j == i);
                } else {
                    assert(self.anc@[x].contains(s[i]));
                }
            }
        }
        s.unique_seq_to_set();
        assert forall|y: NodeId| s.to_set().contains(y) implies self.live@.contains(y) by {
            let k = s.index_of(y);
            if k < s.len() - 1 {
                assert(self.anc_ok(x));
                assert(self.live@.contains(self.anc@[x][k]));
            }
        }
        vstd::set_lib::lemma_len_subset(s.to_set(), self.live@);
    }

    /// A sequence of distinct live nodes is no longer than the node count.
    proof fn lemma_distinct_live_len(&self, s: Seq<NodeId>)
        requires
            self.arena_wf(),
            s.no_duplicates(),
            forall|i: int| 0 <= i < s.len() ==> self.live@.contains(#[trigger] s[i]),
        ensures
            s.len() <= self.live@.len(),
    {
                s.unique_seq_to_set();
        assert forall|y: NodeId| s.to_set().contains(y) implies self.live@.contains(y) by {
            let k = s.index_of(y);
            assert(self.live@.contains(s[k]));
        }
        vstd::set_lib::lemma_len_subset(s.to_set(), self.live@);
    }

    // ---- Arena -------------------------------------------------------------------------

    fn arena_insert(&mut self, n: Node) -> (r: Option<NodeId>)
        requires
            old(self).arena_wf(),
        ensures
            final(self).arena_wf(),
            final(self).roots == old(self).roots,
            final(self).kids == old(self).kids,
            final(self).anc == old(self).anc,
            final(self).epoch == old(self).epoch,
            final(self).slots@.len() >= old(self).slots@.len(),
            forall|s: int| 0 <= s < old(self).slots@.len() ==> (#[trigger] final(self).slots@[s]).gen == old(self).slots@[s].gen,
            match r {
                Some(id) => {
                    &&& !old(self).live@.contains(id)
                    &&& final(self).live@ == old(self).live@.insert(id)
                    &&& final(self).nd(id) == n
                    &&& forall|x: NodeId| #[trigger]
                        old(self).live@.contains(x) ==> final(self).nd(x) == old(self).nd(x)
                },
                None => old(self).live@.len() == 65535 && *final(self) == *old(self),
            },
    {
        if self.free.len() > 0 {
            let s = self.free.pop().unwrap();
            let g = self.slots[s as usize].gen;
            let id = NodeId { slot: s, gen: g };
            proof {
                assert(old(self).free@[old(self).free@.len() - 1] == s);
                assert(!old(self).slot_holds(id));
            }
            self.slots.set(s as usize, Slot { gen: g, node: Some(n) });
            self.count = self.count + 1;
            self.live = Ghost(self.live@.insert(id));
            proof {
                assert forall|x: NodeId| #[trigger] self.live@.contains(x) <==> self.slot_holds(x) by {
                    if x.slot == s {
                        if old(self).live@.contains(x) {
                            assert(old(self).slot_holds(x));
                        }
                    }
                }
                assert forall|i: int| 0 <= i < self.free@.len() implies (#[trigger] self.free@[i] as int)
                    < self.slots@.len() && self.slots@[self.free@[i] as int].node is None by {
                    assert(old(self).free@[i] == self.free@[i]);
                    assert(self.free@[i] != s);
                }
                assert forall|x: NodeId| #[trigger] old(self).live@.contains(x) implies self.nd(x)
                    == old(self).nd(x) by {
                    assert(old(self).slot_holds(x));
                    assert(x.slot != s);
                }
            }
            Some(id)
        } else if self.slots.len() < 65535 {
            let s = self.slots.len() as u16;
            let id = NodeId { slot: s, gen: 1 };
            self.slots.push(Slot { gen: 1, node: Some(n) });
            self.count = self.count + 1;
            proof {
                assert(!old(self).slot_holds(id));
            }
            self.live = Ghost(self.live@.insert(id));
            proof {
                assert forall|x: NodeId| #[trigger] self.live@.contains(x) <==> self.slot_holds(x) by {
                    if x.slot == s {
                        if old(self).live@.contains(x) {
                            assert(old(self).slot_holds(x));
                        }
                    } else if (x.slot as int) < old(self).slots@.len() {
                        assert(self.slots@[x.slot as int] == old(self).slots@[x.slot as int]);
                    }
                }
                assert forall|x: NodeId| #[trigger] old(self).live@.contains(x) implies self.nd(x)
                    == old(self).nd(x) by {
                    assert(old(self).slot_holds(x));
                }
            }
            Some(id)
        } else {
            None
        }
    }

    fn arena_remove(&mut self, id: NodeId)
        requires
            old(self).arena_wf(),
            old(self).live@.contains(id),
        ensures
            final(self).arena_wf(),
            final(self).roots == old(self).roots,
            final(self).kids == old(self).kids,
            final(self).anc == old(self).anc,
            final(self).epoch == old(self).epoch,
            final(self).live@ == old(self).live@.remove(id),
            forall|x: NodeId| #[trigger]
                final(self).live@.contains(x) ==> final(self).nd(x) == old(self).nd(x),
            final(self).slots@.len() == old(self).slots@.len(),
            final(self).retired(id),
            forall|s: int| 0 <= s < old(self).slots@.len() && s != id.slot ==> (#[trigger] final(self).slots@[s]).gen == old(self).slots@[s].gen,
    {
        proof {
            assert(old(self).slot_holds(id));
            assert(!old(self).free@.contains(id.slot)) by {
                if old(self).free@.contains(id.slot) {
                    let k = old(self).free@.index_of(id.slot);
                    assert(old(self).slots@[old(self).free@[k] as int].node is None);
                }
            }
        }
        let s = id.slot;
        let g = self.slots[s as usize].gen;
        self.slots.set(s as usize, Slot { gen: g.wrapping_add(1), node: None });
        self.free.push(s);
        self.count = self.count - 1;
        self.live = Ghost(self.live@.remove(id));
        proof {
            assert forall|x: NodeId| #[trigger] self.live@.contains(x) <==> self.slot_holds(x) by {
                if x.slot == s {
                } else if (x.slot as int) < self.slots@.len() {
                    assert(self.slots@[x.slot as int] == old(self).slots@[x.slot as int]);
                }
            }
            assert forall|i: int| 0 <= i < self.free@.len() implies (#[trigger] self.free@[i] as int)
                < self.slots@.len() && self.slots@[self.free@[i] as int].node is None by {
                if i < self.free@.len() - 1 {
                    assert(old(self).free@[i] == self.free@[i]);
                    assert(old(self).free@[i] != s);
                }
            }
            assert forall|x: NodeId| #[trigger] self.live@.contains(x) implies self.nd(x) == old(
                self,
            ).nd(x) by {
                assert(self.slot_holds(x));
                assert(x.slot != s);
            }
        }
    }

    /// Whether two nodes carry the same class, flags, state and geometry.
    pub open spec fn same_payload(a: Node, b: Node) -> bool {
        &&& a.class == b.class
        &&& a.flags == b.flags
        &&& a.state == b.state
        &&& a.coords == b.coords
        &&& a.scroll == b.scroll
        &&& a.ext_draw == b.ext_draw
        &&& a.layout_dirty == b.layout_dirty
        &&& a.group == b.group
    }

    proof fn lemma_not_own_child(&self, p: NodeId, d: Option<NodeId>)
        requires
            self.wf_d(d),
            self.live@.contains(p),
        ensures
            !self.kids@[p].contains(p),
            forall|c: NodeId| #[trigger] self.kids@[p].contains(c) ==> self.live@.contains(c)
                && self.nd(c).parent == Some(p),
    {
        reveal(Tree::wf_d);
        assert(self.node_links_ok(p));
        assert forall|c: NodeId| #[trigger] self.kids@[p].contains(c) implies self.live@.contains(c)
            && self.nd(c).parent == Some(p) by {
            let k = self.kids@[p].index_of(c);
            assert(self.child_ok(p, self.kids@[p], k));
        }
        if self.kids@[p].contains(p) {
            self.lemma_anc_parent(p, d);
            self.lemma_anc_acyclic(p, d);
        }
    }

    fn same_id(a: Option<NodeId>, b: NodeId) -> (r: bool)
        ensures
            r == (a == Some(b)),
    {
        match a {
            Some(x) => x.slot == b.slot && x.gen == b.gen,
            None => false,
        }
    }

    /// Unlinks `id` from its parent's child list (or the roots). Its subtree stays intact.
    #[verifier::rlimit(80)]
    fn detach(&mut self, id: NodeId)
        requires
            old(self).wf(),
            old(self).live@.contains(id),
        ensures
            final(self).gens_kept(old(self)),
            final(self).wf_d(Some(id)),
            final(self).live == old(self).live,
            final(self).epoch == old(self).epoch,
            final(self).nd(id).parent is None,
            forall|x: NodeId| #[trigger]
                final(self).live@.contains(x) ==> Self::same_payload(final(self).nd(x), old(self).nd(x)),
            forall|x: NodeId| #[trigger]
                final(self).live@.contains(x) && x != id ==> final(self).nd(x).parent == old(self).nd(x).parent,
            match old(self).nd(id).parent {
                Some(p) => {
                    &&& final(self).kids@[p] == old(self).kids@[p].remove(old(self).kids@[p].index_of(id))
                    &&& final(self).roots@ == old(self).roots@
                    &&& forall|x: NodeId| #[trigger] final(self).live@.contains(x) && x != p ==> final(self).kids@[x] == old(self).kids@[x]
                },
                None => {
                    &&& final(self).roots@ == old(self).roots@.remove(old(self).roots@.index_of(id))
                    &&& forall|x: NodeId| #[trigger] final(self).live@.contains(x) ==> final(self).kids@[x] == old(self).kids@[x]
                },
            },
            forall|x: NodeId| #[trigger]
                final(self).live@.contains(x) ==> final(self).anc@[x] == (if old(self).in_subtree(x, id) {
                    old(self).anc@[x].take(old(self).anc@[x].len() - old(self).anc@[id].len())
                } else {
                    old(self).anc@[x]
                }),
    {
        proof {
            self.lemma_unfold(None);
        }
        let n = self.get(id);
        proof {
            assert(self.parent_ok(id, None));
        }
        match n.parent {
            Some(p) => {
                let ghost ch = self.kids@[p];
                let ghost i = ch.index_of(id);
                proof {
                    assert(self.node_links_ok(p));
                    assert(self.child_ok(p, ch, i));
                    self.lemma_not_own_child(p, None);
                    if i > 0 {
                        assert(self.child_ok(p, ch, i - 1));
                    }
                    if i + 1 < ch.len() {
                        assert(self.child_ok(p, ch, i + 1));
                    }
                }
                if let Some(pv) = n.prev {
                    let mut m = self.get(pv);
                    m.next = n.next;
                    self.put(pv, m);
                }
                if let Some(nx) = n.next {
                    let mut m = self.get(nx);
                    m.prev = n.prev;
                    self.put(nx, m);
                }
                let mut pn = self.get(p);
                if Self::same_id(pn.first_child, id) {
                    pn.first_child = n.next;
                }
                if Self::same_id(pn.last_child, id) {
                    pn.last_child = n.prev;
                }
                pn.child_count = pn.child_count - 1;
                self.put(p, pn);
                self.kids = Ghost(self.kids@.insert(p, ch.remove(i)));
            },
            None => {
                let mut k: usize = 0;
                proof {
                    assert(self.roots@.contains(id));
                }
                while k < self.roots.len() && !(self.roots[k].slot == id.slot && self.roots[k].gen == id.gen)
                    invariant
                        self.roots@ == old(self).roots@,
                        old(self).roots@.contains(id),
                        k <= self.roots@.len(),
                        forall|j: int| 0 <= j < k ==> self.roots@[j] != id,
                    decreases self.roots@.len() - k,
                {
                    k = k + 1;
                }
                proof {
                    if k == self.roots@.len() {
                        let j = self.roots@.index_of(id);
                        assert(self.roots@[j] == id);
                    }
                    assert(self.roots@[k as int] == id);
                    assert(self.roots_ok(None));
                    assert(self.roots@.index_of(id) == k) by {
                        let j = self.roots@.index_of(id);
                        assert(self.roots@[j] == id);
                    }
                }
                self.roots.remove(k);
            },
        }
        let mut m = self.get(id);
        m.parent = None;
        m.prev = None;
        m.next = None;
        self.put(id, m);
        let ghost anc0 = self.anc@;
        let ghost d0 = old(self).anc@[id].len();
        self.anc = Ghost(Map::new(
            |x: NodeId| anc0.dom().contains(x),
            |x: NodeId| if old(self).in_subtree(x, id) { anc0[x].take(anc0[x].len() - d0) } else { anc0[x] },
        ));
        proof {
            self.lemma_detach_wf(old(self), id);
        }
    }

    /// An ancestor of `x` inside `root`'s subtree puts `x` inside it too.
    proof fn lemma_anc_in_subtree(&self, x: NodeId, i: int, root: NodeId, d: Option<NodeId>)
        requires
            self.wf_d(d),
            self.live@.contains(x),
            0 <= i < self.anc@[x].len(),
            self.in_subtree(self.anc@[x][i], root),
        ensures
            self.in_subtree(x, root),
    {
        reveal(Tree::wf_d);
        assert(self.anc_ok(x));
        let y = self.anc@[x][i];
        assert(self.anc@[y] == self.anc@[x].skip(i + 1));
        if y != root {
            let k = self.anc@[y].index_of(root);
            assert(self.anc@[x][i + 1 + k] == root);
        }
    }

    /// In `root`'s subtree the chain of `x` is its path to `root` followed by the chain of
    /// `root`.
    proof fn lemma_subtree_path(&self, x: NodeId, root: NodeId, d: Option<NodeId>)
        requires
            self.wf_d(d),
            self.live@.contains(x),
            self.live@.contains(root),
            self.anc@[x].contains(root),
        ensures
            self.anc@[x].index_of(root) == self.anc@[x].len() - self.anc@[root].len() - 1,
            self.anc@[x].skip(self.anc@[x].len() - self.anc@[root].len()) == self.anc@[root],
    {
        reveal(Tree::wf_d);
        let a = self.anc@[x];
        let k = a.index_of(root);
        assert(self.anc_ok(x));
        assert(self.live@.contains(a[k]));
        assert(self.anc@[a[k]] == a.skip(k + 1));
    }

    proof fn lemma_detach_wf(&self, o: &Tree, id: NodeId)
        requires
            o.wf(),
            o.live@.contains(id),
            self.live == o.live,
            self.free == o.free,
            self.count == o.count,
            self.slots@.len() == o.slots@.len(),
            forall|s: int| 0 <= s < o.slots@.len() ==> (#[trigger] self.slots@[s]).gen == o.slots@[s].gen
                && (self.slots@[s].node is Some <==> o.slots@[s].node is Some),
            self.nd(id).parent is None,
            self.nd(id).prev is None,
            self.nd(id).next is None,
            self.nd(id).first_child == o.nd(id).first_child,
            self.nd(id).last_child == o.nd(id).last_child,
            self.nd(id).child_count == o.nd(id).child_count,
            forall|x: NodeId| #[trigger]
                self.live@.contains(x) && x != id ==> self.nd(x).parent == o.nd(x).parent,
            self.anc@ == Map::new(
                |x: NodeId| o.anc@.dom().contains(x),
                |x: NodeId| if o.in_subtree(x, id) { o.anc@[x].take(o.anc@[x].len() - o.anc@[id].len()) } else { o.anc@[x] },
            ),
            match o.nd(id).parent {
                Some(p) => {
                    let ch = o.kids@[p];
                    let i = ch.index_of(id);
                    &&& self.kids@ == o.kids@.insert(p, ch.remove(i))
                    &&& self.roots@ == o.roots@
                    &&& self.nd(p).parent == o.nd(p).parent
                    &&& self.nd(p).prev == o.nd(p).prev
                    &&& self.nd(p).next == o.nd(p).next
                    &&& self.nd(p).child_count as int == ch.len() - 1
                    &&& self.nd(p).first_child == first_in(ch.remove(i))
                    &&& self.nd(p).last_child == last_in(ch.remove(i))
                    &&& (i > 0 ==> self.nd(ch[i - 1]).next == next_in(ch, i) && self.nd(ch[i - 1]).prev
                        == o.nd(ch[i - 1]).prev && self.nd(ch[i - 1]).first_child == o.nd(ch[i - 1]).first_child
                        && self.nd(ch[i - 1]).last_child == o.nd(ch[i - 1]).last_child
                        && self.nd(ch[i - 1]).child_count == o.nd(ch[i - 1]).child_count)
                    &&& (i + 1 < ch.len() ==> self.nd(ch[i + 1]).prev == prev_in(ch, i) && self.nd(ch[i + 1]).next
                        == o.nd(ch[i + 1]).next && self.nd(ch[i + 1]).first_child == o.nd(ch[i + 1]).first_child
                        && self.nd(ch[i + 1]).last_child == o.nd(ch[i + 1]).last_child
                        && self.nd(ch[i + 1]).child_count == o.nd(ch[i + 1]).child_count)
                    &&& forall|x: NodeId| #[trigger] self.live@.contains(x) && x != id && x != p
                        && prev_in(ch, i) != Some(x) && next_in(ch, i) != Some(x) ==> self.nd(x) == o.nd(x)
                },
                None => {
                    &&& self.kids@ == o.kids@
                    &&& self.roots@ == o.roots@.remove(o.roots@.index_of(id))
                    &&& forall|x: NodeId| #[trigger] self.live@.contains(x) && x != id ==> self.nd(x) == o.nd(x)
                },
            },
        ensures
            self.wf_d(Some(id)),
    {
        reveal(Tree::wf_d);
        // The arena is untouched apart from node contents.
        assert forall|x: NodeId| #[trigger] self.live@.contains(x) <==> self.slot_holds(x) by {
            assert(o.live@.contains(x) <==> o.slot_holds(x));
            if (x.slot as int) < self.slots@.len() {
                assert(self.slots@[x.slot as int].gen == o.slots@[x.slot as int].gen);
            }
        }
        assert(self.arena_wf()) by {
            assert forall|i: int| 0 <= i < self.free@.len() implies (#[trigger] self.free@[i] as int)
                < self.slots@.len() && self.slots@[self.free@[i] as int].node is None by {
                assert(o.free@[i] == self.free@[i]);
                assert(o.slots@[o.free@[i] as int].node is None);
            }
        }
        assert(o.roots_ok(None));
        assert(o.parent_ok(id, None));
        assert(o.node_links_ok(id));
        o.lemma_anc_acyclic(id, None);
        // Roots.
        assert(self.roots_ok(Some(id))) by {
            match o.nd(id).parent {
                Some(p) => {
                    assert forall|i: int| 0 <= i < self.roots@.len() implies self.live@.contains(
                        #[trigger] self.roots@[i],
                    ) && self.nd(self.roots@[i]).parent is None && Some(id) != Some(self.roots@[i]) by {
                        assert(o.live@.contains(o.roots@[i]));
                        assert(o.nd(o.roots@[i]).parent is None);
                    }
                },
                None => {
                    let k = o.roots@.index_of(id);
                    assert forall|i: int| 0 <= i < self.roots@.len() implies self.live@.contains(
                        #[trigger] self.roots@[i],
                    ) && self.nd(self.roots@[i]).parent is None && Some(id) != Some(self.roots@[i]) by {
                        let j = if i < k { i } else { i + 1 };
                        assert(self.roots@[i] == o.roots@[j]);
                        assert(o.live@.contains(o.roots@[j]));
                        assert(o.roots@[j] != id);
                    }
                },
            }
        }
        assert forall|x: NodeId| #[trigger] self.live@.contains(x) implies self.kids@.dom().contains(x)
            && self.anc@.dom().contains(x) && self.node_links_ok(x) && self.parent_ok(x, Some(id))
            && self.anc_ok(x) by {
            assert(o.live@.contains(x));
            assert(o.node_links_ok(x));
            assert(o.parent_ok(x, None));
            assert(o.anc_ok(x));
            if x != id && o.nd(x).parent is None {
                match o.nd(id).parent {
                    Some(p) => {
                        let ch = o.kids@[p];
                        let i = ch.index_of(id);
                        assert(o.node_links_ok(p));
                        if i > 0 {
                            assert(o.child_ok(p, ch, i - 1));
                        }
                        if i + 1 < ch.len() {
                            assert(o.child_ok(p, ch, i + 1));
                        }
                    },
                    None => {},
                }
            }
            self.lemma_detach_links(o, id, x);
            self.lemma_detach_parent(o, id, x);
            self.lemma_detach_anc(o, id, x);
        }
    }

    #[verifier::spinoff_prover]
    proof fn lemma_detach_links(&self, o: &Tree, id: NodeId, x: NodeId)
        requires
            o.wf(),
            o.live@.contains(id),
            o.live@.contains(x),
            self.live == o.live,
            self.nd(id).parent is None,
            self.nd(id).prev is None,
            self.nd(id).next is None,
            self.nd(id).first_child == o.nd(id).first_child,
            self.nd(id).last_child == o.nd(id).last_child,
            self.nd(id).child_count == o.nd(id).child_count,
            forall|x: NodeId| #[trigger]
                self.live@.contains(x) && x != id ==> self.nd(x).parent == o.nd(x).parent,
            match o.nd(id).parent {
                Some(p) => {
                    let ch = o.kids@[p];
                    let i = ch.index_of(id);
                    &&& self.kids@ == o.kids@.insert(p, ch.remove(i))
                    &&& self.nd(p).parent == o.nd(p).parent
                    &&& self.nd(p).prev == o.nd(p).prev
                    &&& self.nd(p).next == o.nd(p).next
                    &&& self.nd(p).child_count as int == ch.len() - 1
                    &&& self.nd(p).first_child == first_in(ch.remove(i))
                    &&& self.nd(p).last_child == last_in(ch.remove(i))
                    &&& (i > 0 ==> self.nd(ch[i - 1]).next == next_in(ch, i) && self.nd(ch[i - 1]).prev
                        == o.nd(ch[i - 1]).prev && self.nd(ch[i - 1]).first_child == o.nd(ch[i - 1]).first_child
                        && self.nd(ch[i - 1]).last_child == o.nd(ch[i - 1]).last_child
                        && self.nd(ch[i - 1]).child_count == o.nd(ch[i - 1]).child_count)
                    &&& (i + 1 < ch.len() ==> self.nd(ch[i + 1]).prev == prev_in(ch, i) && self.nd(ch[i + 1]).next
                        == o.nd(ch[i + 1]).next && self.nd(ch[i + 1]).first_child == o.nd(ch[i + 1]).first_child
                        && self.nd(ch[i + 1]).last_child == o.nd(ch[i + 1]).last_child
                        && self.nd(ch[i + 1]).child_count == o.nd(ch[i + 1]).child_count)
                    &&& forall|x: NodeId| #[trigger] self.live@.contains(x) && x != id && x != p
                        && prev_in(ch, i) != Some(x) && next_in(ch, i) != Some(x) ==> self.nd(x) == o.nd(x)
                },
                None => {
                    &&& self.kids@ == o.kids@
                    &&& forall|x: NodeId| #[trigger] self.live@.contains(x) && x != id ==> self.nd(x) == o.nd(x)
                },
            },
        ensures
            self.kids@.dom().contains(x),
            self.node_links_ok(x),
    {
        reveal(Tree::wf_d);
        assert(o.node_links_ok(x));
        assert(o.parent_ok(id, None));
        let ch = self.kids@[x];
        match o.nd(id).parent {
            Some(p) => {
                let och = o.kids@[p];
                let i = och.index_of(id);
                o.lemma_not_own_child(p, None);
                assert(o.node_links_ok(p));
                assert(o.child_ok(p, och, i));
                if x == p {
                    assert forall|k: int| 0 <= k < ch.len() implies #[trigger] self.child_ok(p, ch, k) by {
                        let ok = if k < i { k } else { k + 1 };
                        assert(ch[k] == och[ok]);
                        assert(o.child_ok(p, och, ok));
                        if k < i - 1 {
                            assert(o.child_ok(p, och, k + 1));
                        }
                    }
                    assert(ch.no_duplicates());
                } else {
                    assert forall|k: int| 0 <= k < ch.len() implies #[trigger] self.child_ok(x, ch, k) by {
                        assert(o.child_ok(x, ch, k));
                        let c = ch[k];
                        assert(o.kids@[p].contains(id));
                        if c == id {
                            assert(o.nd(id).parent == Some(x));
                        }
                        if i > 0 && c == och[i - 1] {
                            assert(o.child_ok(p, och, i - 1));
                        }
                        if i + 1 < och.len() && c == och[i + 1] {
                            assert(o.child_ok(p, och, i + 1));
                        }
                    }
                    if i > 0 && x == och[i - 1] {
                        assert(o.child_ok(p, och, i - 1));
                    }
                    if i + 1 < och.len() && x == och[i + 1] {
                        assert(o.child_ok(p, och, i + 1));
                    }
                }
            },
            None => {
                assert forall|k: int| 0 <= k < ch.len() implies #[trigger] self.child_ok(x, ch, k) by {
                    assert(o.child_ok(x, ch, k));
                    if ch[k] == id {
                        assert(o.nd(id).parent == Some(x));
                    }
                }
            },
        }
    }

    proof fn lemma_detach_parent(&self, o: &Tree, id: NodeId, x: NodeId)
        requires
            o.wf(),
            o.live@.contains(id),
            o.live@.contains(x),
            self.live == o.live,
            self.nd(id).parent is None,
            self.nd(id).prev is None,
            self.nd(id).next is None,
            forall|x: NodeId| #[trigger]
                self.live@.contains(x) && x != id ==> self.nd(x).parent == o.nd(x).parent,
            x != id && o.nd(x).parent is None ==> self.nd(x).prev == o.nd(x).prev
                && self.nd(x).next == o.nd(x).next,
            match o.nd(id).parent {
                Some(p) => {
                    let ch = o.kids@[p];
                    &&& self.kids@ == o.kids@.insert(p, ch.remove(ch.index_of(id)))
                    &&& self.roots@ == o.roots@
                },
                None => {
                    &&& self.kids@ == o.kids@
                    &&& self.roots@ == o.roots@.remove(o.roots@.index_of(id))
                },
            },
        ensures
            self.parent_ok(x, Some(id)),
    {
        reveal(Tree::wf_d);
        assert(o.parent_ok(x, None));
        assert(o.roots_ok(None));
        if x != id {
            match o.nd(x).parent {
                Some(q) => {
                    match o.nd(id).parent {
                        Some(p) => {
                            if q == p {
                                let ch = o.kids@[p];
                                let i = ch.index_of(id);
                                let k = ch.index_of(x);
                                let j = if k < i { k } else { k - 1 };
                                assert(ch.remove(i)[j] == x);
                            }
                        },
                        None => {},
                    }
                },
                None => {
                    match o.nd(id).parent {
                        Some(p) => {},
                        None => {
                            let k = o.roots@.index_of(id);
                            let j = o.roots@.index_of(x);
                            assert(j != k);
                            let jj = if j < k { j } else { j - 1 };
                            assert(self.roots@[jj] == x);
                        },
                    }
                },
            }
        }
    }

    #[verifier::rlimit(60)]
    #[verifier::spinoff_prover]
    proof fn lemma_detach_anc(&self, o: &Tree, id: NodeId, x: NodeId)
        requires
            o.wf(),
            o.live@.contains(id),
            o.live@.contains(x),
            self.live == o.live,
            self.nd(id).parent is None,
            forall|x: NodeId| #[trigger]
                self.live@.contains(x) && x != id ==> self.nd(x).parent == o.nd(x).parent,
            self.anc@ == Map::new(
                |x: NodeId| o.anc@.dom().contains(x),
                |x: NodeId| if o.in_subtree(x, id) { o.anc@[x].take(o.anc@[x].len() - o.anc@[id].len()) } else { o.anc@[x] },
            ),
        ensures
            self.anc@.dom().contains(x),
            self.anc_ok(x),
    {
        reveal(Tree::wf_d);
        assert(o.anc_ok(x));
        let a = o.anc@[x];
        let d0 = o.anc@[id].len();
        if x == id {
            assert(self.anc@[x] =~= Seq::<NodeId>::empty());
        } else if o.in_subtree(x, id) {
            o.lemma_subtree_path(x, id, None);
            let k = a.index_of(id);
            let na = self.anc@[x];
            assert(na =~= a.take(k + 1));
            assert forall|i: int| 0 <= i < na.len() implies self.live@.contains(#[trigger] na[i])
                && self.anc@[na[i]] == na.skip(i + 1) by {
                let y = a[i];
                assert(na[i] == y);
                assert(o.live@.contains(y));
                assert(o.anc@[y] == a.skip(i + 1));
                if i < k {
                    assert(o.anc@[y][k - i - 1] == id);
                    assert(o.in_subtree(y, id));
                    o.lemma_subtree_path(y, id, None);
                    assert(self.anc@[y] =~= na.skip(i + 1));
                } else {
                    assert(y == id);
                    assert(self.anc@[y] =~= na.skip(i + 1));
                }
            }
        } else {
            let na = self.anc@[x];
            assert(na == a);
            assert forall|i: int| 0 <= i < na.len() implies self.live@.contains(#[trigger] na[i])
                && self.anc@[na[i]] == na.skip(i + 1) by {
                let y = a[i];
                assert(o.live@.contains(y));
                if o.in_subtree(y, id) {
                    o.lemma_anc_in_subtree(x, i, id, None);
                }
            }
        }
    }

    /// Links a detached `id` under `p` before its child `before` (`None`: last).
    #[verifier::spinoff_prover]
    #[verifier::rlimit(100)]
    fn attach_before(&mut self, id: NodeId, p: NodeId, before: Option<NodeId>)
        requires
            old(self).wf_d(Some(id)),
            old(self).live@.contains(p),
            !old(self).in_subtree(p, id),
            match before {
                Some(b) => old(self).kids@[p].contains(b),
                None => true,
            },
        ensures
            final(self).gens_kept(old(self)),
            final(self).wf(),
            final(self).live == old(self).live,
            final(self).epoch == old(self).epoch,
            final(self).roots == old(self).roots,
            final(self).nd(id).parent == Some(p),
            forall|x: NodeId| #[trigger]
                final(self).live@.contains(x) ==> Self::same_payload(final(self).nd(x), old(self).nd(x)),
            forall|x: NodeId| #[trigger]
                final(self).live@.contains(x) && x != id ==> final(self).nd(x).parent == old(self).nd(x).parent,
            final(self).kids@[p] == old(self).kids@[p].insert(
                match before {
                    Some(b) => old(self).kids@[p].index_of(b),
                    None => old(self).kids@[p].len() as int,
                },
                id,
            ),
            forall|x: NodeId| #[trigger]
                final(self).live@.contains(x) && x != p ==> final(self).kids@[x] == old(self).kids@[x],
            forall|x: NodeId| #[trigger]
                final(self).live@.contains(x) ==> final(self).anc@[x] == (if old(self).in_subtree(x, id) {
                    old(self).anc@[x] + seq![p] + old(self).anc@[p]
                } else {
                    old(self).anc@[x]
                }),
    {
        let ghost ch = self.kids@[p];
        let ghost j = match before {
            Some(b) => ch.index_of(b),
            None => ch.len() as int,
        };
        proof {
            self.lemma_unfold(Some(id));
            self.lemma_attach_pre(id, p, before);
        }
        let prev = match before {
            Some(b) => self.get(b).prev,
            None => self.get(p).last_child,
        };
        let mut m = self.get(id);
        m.parent = Some(p);
        m.prev = prev;
        m.next = before;
        self.put(id, m);
        match prev {
            Some(pv) => {
                let mut x = self.get(pv);
                x.next = Some(id);
                self.put(pv, x);
            },
            None => {
                let mut x = self.get(p);
                x.first_child = Some(id);
                self.put(p, x);
            },
        }
        match before {
            Some(b) => {
                let mut x = self.get(b);
                x.prev = Some(id);
                self.put(b, x);
            },
            None => {
                let mut x = self.get(p);
                x.last_child = Some(id);
                self.put(p, x);
            },
        }
        let mut x = self.get(p);
        x.child_count = x.child_count + 1;
        self.put(p, x);
        self.kids = Ghost(self.kids@.insert(p, ch.insert(j, id)));
        let ghost anc0 = self.anc@;
        self.anc = Ghost(Map::new(
            |x: NodeId| anc0.dom().contains(x),
            |x: NodeId| if old(self).in_subtree(x, id) { anc0[x] + seq![p] + anc0[p] } else { anc0[x] },
        ));
        proof {
            self.lemma_attach_wf(old(self), id, p, j);
        }
    }

    proof fn lemma_attach_pre(&self, id: NodeId, p: NodeId, before: Option<NodeId>)
        requires
            self.wf_d(Some(id)),
            self.live@.contains(p),
            !self.in_subtree(p, id),
            match before {
                Some(b) => self.kids@[p].contains(b),
                None => true,
            },
        ensures
            ({
                let ch = self.kids@[p];
                let j = match before {
                    Some(b) => ch.index_of(b),
                    None => ch.len() as int,
                };
                &&& 0 <= j <= ch.len()
                &&& !ch.contains(id)
                &&& ch.len() + 1 <= 65535
                &&& p != id
                &&& self.live@.contains(id)
                &&& self.nd(id).prev is None && self.nd(id).next is None && self.nd(id).parent is None
                &&& self.nd(p).child_count as int == ch.len()
                &&& self.nd(p).last_child == last_in(ch)
                &&& self.nd(p).first_child == first_in(ch)
                &&& (j > 0 ==> self.nd(ch[j - 1]).next == next_in(ch, j - 1) && self.live@.contains(ch[j - 1])
                    && ch[j - 1] != id && ch[j - 1] != p)
                &&& (j < ch.len() ==> self.nd(ch[j]).prev == prev_in(ch, j) && self.live@.contains(ch[j])
                    && ch[j] != id && ch[j] != p && before == Some(ch[j]))
                &&& (j == ch.len() ==> before is None)
                &&& (j > 0 && j < ch.len() ==> ch[j - 1] != ch[j])
            }),
    {
        reveal(Tree::wf_d);
        let ch = self.kids@[p];
        let j = match before {
            Some(b) => ch.index_of(b),
            None => ch.len() as int,
        };
        assert(self.node_links_ok(p));
        assert(self.parent_ok(id, Some(id)));
        assert(self.node_links_ok(id));
        self.lemma_not_own_child(p, Some(id));
        if j > 0 {
            assert(self.child_ok(p, ch, j - 1));
        }
        if j < ch.len() {
            assert(self.child_ok(p, ch, j));
        }
        assert(!ch.contains(id)) by {
            if ch.contains(id) {
                let k = ch.index_of(id);
                assert(self.child_ok(p, ch, k));
            }
        }
        assert forall|i: int| 0 <= i < ch.push(id).len() implies self.live@.contains(
            #[trigger] ch.push(id)[i],
        ) by {
            if i < ch.len() {
                assert(self.child_ok(p, ch, i));
            }
        }
        self.lemma_distinct_live_len(ch.push(id));
        assert(self.nd(id).prev is None && self.nd(id).next is None);
    }

    proof fn lemma_attach_wf(&self, o: &Tree, id: NodeId, p: NodeId, j: int)
        requires
            o.wf_d(Some(id)),
            o.live@.contains(p),
            !o.in_subtree(p, id),
            0 <= j <= o.kids@[p].len(),
            !o.kids@[p].contains(id),
            o.kids@[p].len() + 1 <= 65535,
            self.live == o.live,
            self.free == o.free,
            self.count == o.count,
            self.roots == o.roots,
            self.slots@.len() == o.slots@.len(),
            forall|s: int| 0 <= s < o.slots@.len() ==> (#[trigger] self.slots@[s]).gen == o.slots@[s].gen
                && (self.slots@[s].node is Some <==> o.slots@[s].node is Some),
            self.kids@ == o.kids@.insert(p, o.kids@[p].insert(j, id)),
            self.anc@ == Map::new(
                |x: NodeId| o.anc@.dom().contains(x),
                |x: NodeId| if o.in_subtree(x, id) { o.anc@[x] + seq![p] + o.anc@[p] } else { o.anc@[x] },
            ),
            ({
                let ch = o.kids@[p];
                let nch = ch.insert(j, id);
                &&& self.nd(id).parent == Some(p)
                &&& self.nd(id).prev == prev_in(nch, j)
                &&& self.nd(id).next == next_in(nch, j)
                &&& self.nd(id).first_child == o.nd(id).first_child
                &&& self.nd(id).last_child == o.nd(id).last_child
                &&& self.nd(id).child_count == o.nd(id).child_count
                &&& self.nd(p).parent == o.nd(p).parent
                &&& self.nd(p).prev == o.nd(p).prev
                &&& self.nd(p).next == o.nd(p).next
                &&& self.nd(p).child_count as int == nch.len()
                &&& self.nd(p).first_child == first_in(nch)
                &&& self.nd(p).last_child == last_in(nch)
                &&& (j > 0 ==> self.nd(ch[j - 1]).next == Some(id) && self.nd(ch[j - 1]).prev == o.nd(ch[j - 1]).prev
                    && self.nd(ch[j - 1]).parent == o.nd(ch[j - 1]).parent
                    && self.nd(ch[j - 1]).first_child == o.nd(ch[j - 1]).first_child
                    && self.nd(ch[j - 1]).last_child == o.nd(ch[j - 1]).last_child
                    && self.nd(ch[j - 1]).child_count == o.nd(ch[j - 1]).child_count)
                &&& (j < ch.len() ==> self.nd(ch[j]).prev == Some(id) && self.nd(ch[j]).next == o.nd(ch[j]).next
                    && self.nd(ch[j]).parent == o.nd(ch[j]).parent
                    && self.nd(ch[j]).first_child == o.nd(ch[j]).first_child
                    && self.nd(ch[j]).last_child == o.nd(ch[j]).last_child
                    && self.nd(ch[j]).child_count == o.nd(ch[j]).child_count)
                &&& forall|x: NodeId| #[trigger] self.live@.contains(x) && x != id && x != p
                    && prev_in(nch, j) != Some(x) && next_in(nch, j) != Some(x) ==> self.nd(x) == o.nd(x)
            }),
        ensures
            self.wf(),
    {
        reveal(Tree::wf_d);
        let ch = o.kids@[p];
        let nch = ch.insert(j, id);
        assert forall|x: NodeId| #[trigger] self.live@.contains(x) <==> self.slot_holds(x) by {
            assert(o.live@.contains(x) <==> o.slot_holds(x));
            if (x.slot as int) < self.slots@.len() {
                assert(self.slots@[x.slot as int].gen == o.slots@[x.slot as int].gen);
            }
        }
        assert(self.arena_wf()) by {
            assert forall|i: int| 0 <= i < self.free@.len() implies (#[trigger] self.free@[i] as int)
                < self.slots@.len() && self.slots@[self.free@[i] as int].node is None by {
                assert(o.free@[i] == self.free@[i]);
                assert(o.slots@[o.free@[i] as int].node is None);
            }
        }
        assert(o.roots_ok(Some(id)));
        assert(o.node_links_ok(p));
        assert(o.node_links_ok(id));
        o.lemma_not_own_child(p, Some(id));
        if j > 0 {
            assert(o.child_ok(p, ch, j - 1));
        }
        if j < ch.len() {
            assert(o.child_ok(p, ch, j));
        }
        assert(self.roots_ok(None)) by {
            assert forall|i: int| 0 <= i < self.roots@.len() implies self.live@.contains(
                #[trigger] self.roots@[i],
            ) && self.nd(self.roots@[i]).parent is None && None::<NodeId> != Some(self.roots@[i]) by {
                let r = self.roots@[i];
                assert(o.live@.contains(r));
                assert(o.nd(r).parent is None);
                assert(r != id);
                if j > 0 && r == ch[j - 1] {
                    assert(o.child_ok(p, ch, j - 1));
                }
                if j < ch.len() && r == ch[j] {
                    assert(o.child_ok(p, ch, j));
                }
            }
        }
        assert forall|x: NodeId| #[trigger] self.live@.contains(x) implies self.kids@.dom().contains(x)
            && self.anc@.dom().contains(x) && self.node_links_ok(x) && self.parent_ok(x, None)
            && self.anc_ok(x) by {
            assert(o.live@.contains(x));
            assert(o.node_links_ok(x));
            assert(o.parent_ok(x, Some(id)));
            assert(o.anc_ok(x));
            self.lemma_attach_links(o, id, p, j, x);
            self.lemma_attach_parent(o, id, p, j, x);
            self.lemma_attach_anc(o, id, p, x);
        }
    }

    #[verifier::rlimit(60)]
    #[verifier::spinoff_prover]
    proof fn lemma_attach_links(&self, o: &Tree, id: NodeId, p: NodeId, j: int, x: NodeId)
        requires
            o.wf_d(Some(id)),
            o.live@.contains(p),
            o.live@.contains(x),
            !o.in_subtree(p, id),
            0 <= j <= o.kids@[p].len(),
            !o.kids@[p].contains(id),
            self.live == o.live,
            self.kids@ == o.kids@.insert(p, o.kids@[p].insert(j, id)),
            ({
                let ch = o.kids@[p];
                let nch = ch.insert(j, id);
                &&& self.nd(id).parent == Some(p)
                &&& self.nd(id).prev == prev_in(nch, j)
                &&& self.nd(id).next == next_in(nch, j)
                &&& self.nd(id).first_child == o.nd(id).first_child
                &&& self.nd(id).last_child == o.nd(id).last_child
                &&& self.nd(id).child_count == o.nd(id).child_count
                &&& self.nd(p).parent == o.nd(p).parent
                &&& self.nd(p).prev == o.nd(p).prev
                &&& self.nd(p).next == o.nd(p).next
                &&& self.nd(p).child_count as int == nch.len()
                &&& self.nd(p).first_child == first_in(nch)
                &&& self.nd(p).last_child == last_in(nch)
                &&& (j > 0 ==> self.nd(ch[j - 1]).next == Some(id) && self.nd(ch[j - 1]).prev == o.nd(ch[j - 1]).prev
                    && self.nd(ch[j - 1]).parent == o.nd(ch[j - 1]).parent
                    && self.nd(ch[j - 1]).first_child == o.nd(ch[j - 1]).first_child
                    && self.nd(ch[j - 1]).last_child == o.nd(ch[j - 1]).last_child
                    && self.nd(ch[j - 1]).child_count == o.nd(ch[j - 1]).child_count)
                &&& (j < ch.len() ==> self.nd(ch[j]).prev == Some(id) && self.nd(ch[j]).next == o.nd(ch[j]).next
                    && self.nd(ch[j]).parent == o.nd(ch[j]).parent
                    && self.nd(ch[j]).first_child == o.nd(ch[j]).first_child
                    && self.nd(ch[j]).last_child == o.nd(ch[j]).last_child
                    && self.nd(ch[j]).child_count == o.nd(ch[j]).child_count)
                &&& forall|x: NodeId| #[trigger] self.live@.contains(x) && x != id && x != p
                    && prev_in(nch, j) != Some(x) && next_in(nch, j) != Some(x) ==> self.nd(x) == o.nd(x)
            }),
        ensures
            self.kids@.dom().contains(x),
            self.node_links_ok(x),
    {
        reveal(Tree::wf_d);
        let och = o.kids@[p];
        let nch = och.insert(j, id);
        assert(o.node_links_ok(x));
        assert(o.node_links_ok(p));
        o.lemma_not_own_child(p, Some(id));
        assert(o.parent_ok(id, Some(id)));
        if j > 0 {
            assert(o.child_ok(p, och, j - 1));
        }
        if j < och.len() {
            assert(o.child_ok(p, och, j));
        }
        let ch = self.kids@[x];
        if x == p {
            assert(ch == nch);
            assert forall|k: int| 0 <= k < ch.len() implies #[trigger] self.child_ok(p, ch, k) by {
                if k < j {
                    assert(ch[k] == och[k]);
                    assert(o.child_ok(p, och, k));
                } else if k == j {
                } else {
                    assert(ch[k] == och[k - 1]);
                    assert(o.child_ok(p, och, k - 1));
                }
            }
            assert(ch.no_duplicates());
        } else {
            assert(ch == o.kids@[x]);
            assert forall|k: int| 0 <= k < ch.len() implies #[trigger] self.child_ok(x, ch, k) by {
                assert(o.child_ok(x, ch, k));
                let c = ch[k];
                if c == id {
                    assert(o.nd(id).parent == Some(x));
                }
                if j > 0 && c == och[j - 1] {
                    assert(o.child_ok(p, och, j - 1));
                }
                if j < och.len() && c == och[j] {
                    assert(o.child_ok(p, och, j));
                }
            }
            if x == id {
            } else {
                if j > 0 && x == och[j - 1] {
                    assert(o.child_ok(p, och, j - 1));
                }
                if j < och.len() && x == och[j] {
                    assert(o.child_ok(p, och, j));
                }
            }
        }
    }

    proof fn lemma_attach_parent(&self, o: &Tree, id: NodeId, p: NodeId, j: int, x: NodeId)
        requires
            o.wf_d(Some(id)),
            o.live@.contains(p),
            o.live@.contains(x),
            0 <= j <= o.kids@[p].len(),
            self.live == o.live,
            self.roots == o.roots,
            self.kids@ == o.kids@.insert(p, o.kids@[p].insert(j, id)),
            self.nd(id).parent == Some(p),
            forall|x: NodeId| #[trigger]
                self.live@.contains(x) && x != id ==> self.nd(x).parent == o.nd(x).parent,
            x != id && o.nd(x).parent is None ==> self.nd(x).prev == o.nd(x).prev
                && self.nd(x).next == o.nd(x).next,
        ensures
            self.parent_ok(x, None),
    {
        reveal(Tree::wf_d);
        assert(o.parent_ok(x, Some(id)));
        if x == id {
            assert(self.kids@[p][j] == id);
        } else {
            match o.nd(x).parent {
                Some(q) => {
                    if q == p {
                        let ch = o.kids@[p];
                        let k = ch.index_of(x);
                        let kk = if k < j { k } else { k + 1 };
                        assert(self.kids@[p][kk] == x);
                    }
                },
                None => {},
            }
        }
    }

    proof fn lemma_attach_anc(&self, o: &Tree, id: NodeId, p: NodeId, x: NodeId)
        requires
            o.wf_d(Some(id)),
            o.live@.contains(p),
            o.live@.contains(x),
            !o.in_subtree(p, id),
            self.live == o.live,
            self.nd(id).parent == Some(p),
            forall|x: NodeId| #[trigger]
                self.live@.contains(x) && x != id ==> self.nd(x).parent == o.nd(x).parent,
            self.anc@ == Map::new(
                |x: NodeId| o.anc@.dom().contains(x),
                |x: NodeId| if o.in_subtree(x, id) { o.anc@[x] + seq![p] + o.anc@[p] } else { o.anc@[x] },
            ),
        ensures
            self.anc@.dom().contains(x),
            self.anc_ok(x),
    {
        reveal(Tree::wf_d);
        assert(o.anc_ok(x));
        assert(o.anc_ok(id));
        assert(o.anc_ok(p));
        // No node of p's chain lies in id's subtree.
        assert forall|i: int| 0 <= i < o.anc@[p].len() implies !o.in_subtree(#[trigger] o.anc@[p][i], id) by {
            if o.in_subtree(o.anc@[p][i], id) {
                o.lemma_anc_in_subtree(p, i, id, Some(id));
            }
        }
        if o.in_subtree(x, id) {
            if x != id {
                o.lemma_subtree_path(x, id, Some(id));
            }
            assert forall|y: NodeId| #[trigger] o.live@.contains(y) implies o.anc@.dom().contains(y) by {}
            assert forall|i: int| 0 <= i < o.anc@[p].len() implies o.live@.contains(#[trigger] o.anc@[p][i])
                && o.anc@[o.anc@[p][i]] == o.anc@[p].skip(i + 1) by {
                assert(o.anc_ok(p));
            }
            self.lemma_attach_anc_in(o, id, p, x);
        } else {
            let a = o.anc@[x];
            let na = self.anc@[x];
            assert(na == a);
            assert forall|i: int| 0 <= i < na.len() implies self.live@.contains(#[trigger] na[i])
                && self.anc@[na[i]] == na.skip(i + 1) by {
                let y = a[i];
                assert(o.live@.contains(y));
                if o.in_subtree(y, id) {
                    o.lemma_anc_in_subtree(x, i, id, Some(id));
                }
            }
        }
    }

    #[verifier::spinoff_prover]
    proof fn lemma_attach_anc_in(&self, o: &Tree, id: NodeId, p: NodeId, x: NodeId)
        requires
            o.live@.contains(p),
            o.live@.contains(x),
            o.anc@.dom().contains(x),
            forall|y: NodeId| #[trigger] o.live@.contains(y) ==> o.anc@.dom().contains(y),
            o.anc_ok(x),
            o.anc@[id].len() == 0,
            x != id ==> o.anc@[x].len() > 0 && o.anc@[x][o.anc@[x].len() - 1] == id,
            x == id ==> o.anc@[x].len() == 0,
            !o.in_subtree(p, id),
            forall|i: int| 0 <= i < o.anc@[p].len() ==> !o.in_subtree(#[trigger] o.anc@[p][i], id),
            forall|i: int| 0 <= i < o.anc@[p].len() ==> o.live@.contains(#[trigger] o.anc@[p][i]) && o.anc@[o.anc@[p][i]] == o.anc@[p].skip(i + 1),
            self.live == o.live,
            self.nd(id).parent == Some(p),
            x != id ==> self.nd(x).parent == o.nd(x).parent,
            self.anc@ == Map::new(
                |x: NodeId| o.anc@.dom().contains(x),
                |x: NodeId| if o.in_subtree(x, id) { o.anc@[x] + seq![p] + o.anc@[p] } else { o.anc@[x] },
            ),
        ensures
            self.anc@.dom().contains(x),
            self.anc_ok(x),
    {
        let a = o.anc@[x];
        let tail = seq![p] + o.anc@[p];
        let na = self.anc@[x];
        assert(o.in_subtree(x, id));
        assert(na == a + tail);
        assert forall|i: int| 0 <= i < a.len() implies o.anc@.dom().contains(#[trigger] a[i]) && o.live@.contains(a[i])
            && o.anc@[a[i]] == a.skip(i + 1) by {
        }
        self.lemma_attach_anc_head(o, id, p, x);
        assert(na[a.len() as int] == p);
        assert(self.anc@[p] =~= na.skip(a.len() as int + 1));
        self.lemma_attach_anc_tail(o, id, p, x);
        assert forall|i: int| 0 <= i < na.len() implies self.live@.contains(#[trigger] na[i])
            && self.anc@[na[i]] == na.skip(i + 1) by {
            if i < a.len() {
                assert(self.live@.contains(na[i]) && self.anc@[na[i]] == na.skip(i + 1));
            } else if i == a.len() {
            } else {
                assert(self.live@.contains(na[i]) && self.anc@[na[i]] == na.skip(i + 1));
            }
        }
    }

    #[verifier::spinoff_prover]
    proof fn lemma_attach_anc_head(&self, o: &Tree, id: NodeId, p: NodeId, x: NodeId)
        requires
            o.live@.contains(x),
            forall|y: NodeId| #[trigger] o.live@.contains(y) ==> o.anc@.dom().contains(y),
            o.anc_ok(x),
            x != id ==> o.anc@[x].len() > 0 && o.anc@[x][o.anc@[x].len() - 1] == id,
            x == id ==> o.anc@[x].len() == 0,
            self.live == o.live,
            self.anc@ == Map::new(
                |x: NodeId| o.anc@.dom().contains(x),
                |x: NodeId| if o.in_subtree(x, id) { o.anc@[x] + seq![p] + o.anc@[p] } else { o.anc@[x] },
            ),
        ensures
            forall|i: int| 0 <= i < o.anc@[x].len() ==> self.live@.contains(#[trigger] self.anc@[x][i])
                && self.anc@[self.anc@[x][i]] == self.anc@[x].skip(i + 1),
    {
        let a = o.anc@[x];
        let na = a + seq![p] + o.anc@[p];
        assert(o.in_subtree(x, id));
        assert(self.anc@[x] == na);
        assert forall|i: int| 0 <= i < a.len() implies self.live@.contains(#[trigger] self.anc@[x][i])
            && self.anc@[self.anc@[x][i]] == self.anc@[x].skip(i + 1) by {
            assert(o.live@.contains(a[i]));
            self.lemma_attach_anc_head_at(o, id, p, x, i);
        }
    }

    #[verifier::spinoff_prover]
    proof fn lemma_attach_anc_head_at(&self, o: &Tree, id: NodeId, p: NodeId, x: NodeId, i: int)
        requires
            o.live@.contains(x),
            o.anc@.dom().contains(x),
            0 <= i < o.anc@[x].len(),
            o.anc@.dom().contains(o.anc@[x][i]),
            o.live@.contains(o.anc@[x][i]),
            o.anc@[o.anc@[x][i]] == o.anc@[x].skip(i + 1),
            o.anc@[x][o.anc@[x].len() - 1] == id,
            o.in_subtree(x, id),
            self.live == o.live,
            self.anc@ == Map::new(
                |x: NodeId| o.anc@.dom().contains(x),
                |x: NodeId| if o.in_subtree(x, id) { o.anc@[x] + seq![p] + o.anc@[p] } else { o.anc@[x] },
            ),
        ensures
            self.live@.contains(self.anc@[x][i]),
            self.anc@[self.anc@[x][i]] == self.anc@[x].skip(i + 1),
    {
        let a = o.anc@[x];
        let tail = seq![p] + o.anc@[p];
        let na = a + tail;
        let y = a[i];
        assert(self.anc@[x] == na);
        assert(na[i] == y);
        if i < a.len() - 1 {
            assert(o.anc@[y][a.len() - 2 - i] == id);
        }
        assert(o.in_subtree(y, id));
        assert(self.anc@[y] == o.anc@[y] + tail);
        assert(o.anc@[y] + tail =~= na.skip(i + 1));
    }

    #[verifier::spinoff_prover]
    proof fn lemma_attach_anc_tail(&self, o: &Tree, id: NodeId, p: NodeId, x: NodeId)
        requires
            o.live@.contains(x),
            o.live@.contains(p),
            forall|y: NodeId| #[trigger] o.live@.contains(y) ==> o.anc@.dom().contains(y),
            x != id ==> o.anc@[x].len() > 0 && o.anc@[x][o.anc@[x].len() - 1] == id,
            forall|i: int| 0 <= i < o.anc@[p].len() ==> !o.in_subtree(#[trigger] o.anc@[p][i], id),
            forall|i: int| 0 <= i < o.anc@[p].len() ==> o.live@.contains(#[trigger] o.anc@[p][i]) && o.anc@[o.anc@[p][i]] == o.anc@[p].skip(i + 1),
            self.live == o.live,
            self.anc@ == Map::new(
                |x: NodeId| o.anc@.dom().contains(x),
                |x: NodeId| if o.in_subtree(x, id) { o.anc@[x] + seq![p] + o.anc@[p] } else { o.anc@[x] },
            ),
        ensures
            forall|i: int| o.anc@[x].len() < i < o.anc@[x].len() + 1 + o.anc@[p].len() ==> self.live@.contains(#[trigger] (o.anc@[x] + seq![p] + o.anc@[p])[i])
                && self.anc@[(o.anc@[x] + seq![p] + o.anc@[p])[i]] == (o.anc@[x] + seq![p] + o.anc@[p]).skip(i + 1),
    {
        let a = o.anc@[x];
        let na = a + seq![p] + o.anc@[p];
        assert forall|i: int| a.len() < i < a.len() + 1 + o.anc@[p].len() implies self.live@.contains(#[trigger] na[i])
            && self.anc@[na[i]] == na.skip(i + 1) by {
            let y = o.anc@[p][i - a.len() - 1];
            assert(na[i] == y);
            assert(o.live@.contains(y));
            assert(!o.in_subtree(y, id));
            assert(o.anc@[y] == o.anc@[p].skip(i - a.len()));
            assert(self.anc@[y] =~= na.skip(i + 1));
        }
    }

    /// Inserts a detached `id` among the roots at `index` (`None` or past the end: last).
    fn attach_root(&mut self, id: NodeId, index: Option<usize>)
        requires
            old(self).wf_d(Some(id)),
        ensures
            final(self).gens_kept(old(self)),
            final(self).wf(),
            final(self).live == old(self).live,
            final(self).slots == old(self).slots,
            final(self).kids == old(self).kids,
            final(self).anc == old(self).anc,
            final(self).epoch == old(self).epoch,
            final(self).roots@ == old(self).roots@.insert(Self::clamp_index(index, old(self).roots@.len()), id),
    {
        proof {
            self.lemma_unfold(Some(id));
        }
        let len = self.roots.len();
        let i = match index {
            Some(i) => if i < len { i } else { len },
            None => len,
        };
        proof {
            assert(self.roots_ok(Some(id)));
            assert(!self.roots@.contains(id)) by {
                if self.roots@.contains(id) {
                    let k = self.roots@.index_of(id);
                    assert(Some(id) != Some(self.roots@[k]));
                }
            }
        }
        self.roots.insert(i, id);
        proof {
            let o = old(self);
            assert forall|k: int| 0 <= k < self.roots@.len() implies self.live@.contains(
                #[trigger] self.roots@[k],
            ) && self.nd(self.roots@[k]).parent is None && None::<NodeId> != Some(self.roots@[k]) by {
                if k < i {
                    assert(self.roots@[k] == o.roots@[k]);
                } else if k > i {
                    assert(self.roots@[k] == o.roots@[k - 1]);
                }
            }
            assert forall|x: NodeId| #[trigger] self.live@.contains(x) implies self.kids@.dom().contains(x)
                && self.anc@.dom().contains(x) && self.node_links_ok(x) && self.parent_ok(x, None)
                && self.anc_ok(x) by {
                assert(o.node_links_ok(x));
                assert(o.parent_ok(x, Some(id)));
                assert(o.anc_ok(x));
                let ch = o.kids@[x];
                assert forall|k: int| 0 <= k < ch.len() implies #[trigger] self.child_ok(x, ch, k) by {
                    assert(o.child_ok(x, ch, k));
                }
                let a = o.anc@[x];
                assert forall|k: int| 0 <= k < a.len() implies self.live@.contains(#[trigger] a[k])
                    && self.anc@[a[k]] == a.skip(k + 1) by {
                    assert(o.live@.contains(a[k]));
                }
                if o.nd(x).parent is None {
                    if x == id {
                        assert(self.roots@[i as int] == id);
                    } else {
                        let k = o.roots@.index_of(x);
                        let kk = if k < i { k } else { k + 1 };
                        assert(self.roots@[kk] == x);
                    }
                }
            }
            self.lemma_fold(None);
        }
    }

    /// `index` clamped to `len` (`None`: `len`).
    pub open spec fn clamp_index(index: Option<usize>, len: nat) -> int {
        match index {
            Some(i) => if i < len { i as int } else { len as int },
            None => len as int,
        }
    }

    proof fn lemma_fresh_detached(&self, o: &Tree, id: NodeId)
        requires
            o.wf(),
            self.arena_wf(),
            !o.live@.contains(id),
            self.live@ == o.live@.insert(id),
            forall|x: NodeId| #[trigger] o.live@.contains(x) ==> self.nd(x) == o.nd(x),
            self.roots == o.roots,
            self.kids@ == o.kids@.insert(id, Seq::<NodeId>::empty()),
            self.anc@ == o.anc@.insert(id, Seq::<NodeId>::empty()),
            self.nd(id).parent is None,
            self.nd(id).prev is None,
            self.nd(id).next is None,
            self.nd(id).first_child is None,
            self.nd(id).last_child is None,
            self.nd(id).child_count == 0,
        ensures
            self.wf_d(Some(id)),
    {
        reveal(Tree::wf_d);
        assert(o.roots_ok(None));
        assert(self.roots_ok(Some(id))) by {
            assert forall|i: int| 0 <= i < self.roots@.len() implies self.live@.contains(
                #[trigger] self.roots@[i],
            ) && self.nd(self.roots@[i]).parent is None && Some(id) != Some(self.roots@[i]) by {
                assert(o.live@.contains(o.roots@[i]));
            }
        }
        assert forall|x: NodeId| #[trigger] self.live@.contains(x) implies self.kids@.dom().contains(x)
            && self.anc@.dom().contains(x) && self.node_links_ok(x) && self.parent_ok(x, Some(id))
            && self.anc_ok(x) by {
            if x == id {
                assert(self.kids@[id] =~= Seq::<NodeId>::empty());
            } else {
                assert(o.live@.contains(x));
                assert(o.node_links_ok(x));
                assert(o.parent_ok(x, None));
                assert(o.anc_ok(x));
                let ch = o.kids@[x];
                assert(self.kids@[x] == ch);
                assert forall|k: int| 0 <= k < ch.len() implies #[trigger] self.child_ok(x, ch, k) by {
                    assert(o.child_ok(x, ch, k));
                }
                match o.nd(x).parent {
                    Some(q) => {},
                    None => {},
                }
                let a = o.anc@[x];
                assert forall|i: int| 0 <= i < a.len() implies self.live@.contains(#[trigger] a[i])
                    && self.anc@[a[i]] == a.skip(i + 1) by {
                    assert(o.live@.contains(a[i]));
                }
            }
        }
    }

    /// Creates a node of `class` as the last child of `parent` (or as a new root), with the
    /// class's default flags, state `DEFAULT` and zero coordinates. O(1). An error leaves the
    /// tree as it was.
    pub fn create(&mut self, parent: Option<NodeId>, class: WidgetClass) -> (r: Result<NodeId, EngineError>)
        requires
            old(self).wf(),
        ensures
            final(self).wf(),
            forall|y: NodeId| #[trigger] old(self).retired(y) ==> final(self).retired(y),
            final(self).epoch_value() == old(self).epoch_value(),
            match parent {
                Some(p) => !old(self).has(p) ==> r == Err::<NodeId, EngineError>(EngineError::NodeNotFound(p)),
                None => true,
            },
            r == Err::<NodeId, EngineError>(EngineError::TooManyNodes) <==> (match parent {
                Some(p) => old(self).has(p),
                None => true,
            }) && old(self).node_count() == 65535,
            r is Err ==> *final(self) == *old(self),
            (match parent {
                Some(p) => old(self).has(p),
                None => true,
            }) && old(self).node_count() < 65535 ==> r is Ok,
            r is Ok ==> final(self).node_count() == old(self).node_count() + 1,
            r is Err ==> final(self).node_count() == old(self).node_count(),
            match r {
                Ok(id) => {
                    &&& !old(self).has(id)
                    &&& final(self).live_set() == old(self).live_set().insert(id)
                    &&& final(self).parent_of(id) == parent
                    &&& final(self).kids_of(id) == Seq::<NodeId>::empty()
                    &&& final(self).anc_of(id) == (match parent {
                        Some(p) => seq![p] + old(self).anc_of(p),
                        None => Seq::<NodeId>::empty(),
                    })
                    &&& forall|x: NodeId| old(self).has(x) ==> #[trigger] final(self).anc_of(x) == old(self).anc_of(x)
                    &&& final(self).nd(id).class == class
                    &&& final(self).nd(id).flags == class.default_flags
                    &&& final(self).nd(id).state.bits == 0
                    &&& final(self).nd(id).coords == Rect { x0: 0, y0: 0, x1: 0, y1: 0 }
                    &&& final(self).nd(id).group is None
                    &&& forall|x: NodeId| #[trigger] old(self).has(x) ==> final(self).parent_of(x) == old(self).parent_of(x)
                        && Self::same_payload(final(self).nd(x), old(self).nd(x))
                    &&& match parent {
                        Some(p) => {
                            &&& final(self).kids_of(p) == old(self).kids_of(p).push(id)
                            &&& final(self).roots_seq() == old(self).roots_seq()
                            &&& forall|x: NodeId| old(self).has(x) && x != p ==> #[trigger] final(self).kids_of(x) == old(self).kids_of(x)
                        },
                        None => {
                            &&& final(self).roots_seq() == old(self).roots_seq().push(id)
                            &&& forall|x: NodeId| old(self).has(x) ==> #[trigger] final(self).kids_of(x) == old(self).kids_of(x)
                        },
                    }
                },
                Err(_) => true,
            },
    {
        proof {
            old(self).lemma_unfold(None);
        }
        if let Some(p) = parent {
            if !self.contains(p) {
                return Err(EngineError::NodeNotFound(p));
            }
        }
        let flags = class.default_flags;
        let n = Node {
            parent: None,
            first_child: None,
            last_child: None,
            prev: None,
            next: None,
            child_count: 0,
            class,
            flags,
            state: State { bits: 0 },
            coords: Rect { x0: 0, y0: 0, x1: 0, y1: 0 },
            scroll: Point { x: 0, y: 0 },
            ext_draw: 0,
            layout_dirty: LayoutDirty { bits: 0 },
            group: None,
        };
        let id = match self.arena_insert(n) {
            Some(id) => id,
            None => {
                return Err(EngineError::TooManyNodes);
            },
        };
        self.kids = Ghost(self.kids@.insert(id, Seq::empty()));
        self.anc = Ghost(self.anc@.insert(id, Seq::empty()));
        let ghost inserted = *self;
        proof {
            assert forall|y: NodeId| #[trigger] old(self).retired(y) implies inserted.retired(y) by {
                assert(inserted.slots@[y.slot as int].gen == old(self).slots@[y.slot as int].gen);
            }
            self.lemma_fresh_detached(old(self), id);
            assert(old(self).arena_wf());
        }
        let ghost mid_live = self.live@;
        let ghost mid_slots = self.slots@;
        proof {
            assert forall|x: NodeId| #[trigger] old(self).live@.contains(x) implies mid_slots[x.slot as int].node.unwrap() == old(self).nd(x) by {
                assert(self.nd(x) == old(self).nd(x));
            }
        }
        match parent {
            Some(p) => {
                proof {
                    self.lemma_unfold(Some(id));
                    assert(!self.in_subtree(p, id)) by {
                        assert(self.anc_ok(p));
                        if self.anc@[p].contains(id) {
                            let k = self.anc@[p].index_of(id);
                            assert(old(self).anc_ok(p));
                            assert(old(self).live@.contains(old(self).anc@[p][k]));
                        }
                    }
                }
                self.attach_before(id, p, None);
                proof {
                    assert(self.kids@[p] =~= old(self).kids@[p].push(id));
                    assert forall|x: NodeId| #[trigger] old(self).has(x) implies self.parent_of(x) == old(self).parent_of(x)
                        && Self::same_payload(self.nd(x), old(self).nd(x)) by {
                        assert(x != id);
                        assert(self.live@.contains(x));
                        assert(mid_live.contains(x));
                        assert(mid_slots[x.slot as int].node.unwrap() == old(self).nd(x));
                    }
                    assert forall|x: NodeId| #[trigger] old(self).has(x) && x != p implies self.kids_of(x) == old(self).kids_of(x) by {
                        assert(self.live@.contains(x));
                        assert(x != id);
                    }
                    assert(inserted.in_subtree(id, id));
                    assert(self.anc@[id] =~= seq![p] + old(self).anc@[p]);
                    assert forall|x: NodeId| old(self).has(x) implies #[trigger] self.anc_of(x) == old(self).anc_of(x) by {
                        assert(self.live@.contains(x));
                        assert(x != id);
                        assert(old(self).anc_ok(x));
                        if old(self).anc@[x].contains(id) {
                            let k = old(self).anc@[x].index_of(id);
                            assert(old(self).live@.contains(old(self).anc@[x][k]));
                        }
                        assert(!inserted.in_subtree(x, id));
                    }
                }
            },
            None => {
                self.attach_root(id, None);
                proof {
                    assert forall|x: NodeId| #[trigger] old(self).has(x) implies self.kids_of(x) == old(self).kids_of(x) by {
                        assert(x != id);
                    }
                    assert forall|x: NodeId| old(self).has(x) implies #[trigger] self.anc_of(x) == old(self).anc_of(x) by {
                        assert(x != id);
                    }
                }
            },
        }
        proof {
            self.lemma_gens_retired(&inserted);
        }
        Ok(id)
    }

    // ---- Lists of siblings ---------------------------------------------------------------

    /// The sibling list under `parent`: the children of a node, or the roots for `None`.
    pub open spec fn list_of(&self, parent: Option<NodeId>) -> Seq<NodeId> {
        match parent {
            Some(p) => self.kids_of(p),
            None => self.roots_seq(),
        }
    }

    /// The sibling list under `q` once `id` is unlinked from its parent.
    pub open spec fn list_without(&self, id: NodeId, q: Option<NodeId>) -> Seq<NodeId> {
        if q == self.parent_of(id) {
            self.list_of(q).remove(self.list_of(q).index_of(id))
        } else {
            self.list_of(q)
        }
    }

    /// Whether `q` names a sibling list: the roots, or a live node.
    pub open spec fn list_exists(&self, q: Option<NodeId>) -> bool {
        match q {
            Some(p) => self.has(p),
            None => true,
        }
    }

    /// Facts of the model that callers rely on: every sibling list is free of repetitions,
    /// a live node is in the list of its parent, and the lists hold live nodes whose parent
    /// is the list's owner.
    pub proof fn lemma_lists(&self, x: NodeId)
        requires
            self.wf(),
            self.has(x),
        ensures
            self.list_of(self.parent_of(x)).contains(x),
            self.list_of(Some(x)).no_duplicates(),
            self.roots_seq().no_duplicates(),
            forall|c: NodeId| #[trigger] self.list_of(Some(x)).contains(c) ==> self.has(c) && self.parent_of(c) == Some(x),
            forall|c: NodeId| #[trigger] self.roots_seq().contains(c) ==> self.has(c) && self.parent_of(c) is None,
            self.parent_of(x) is Some ==> self.has(self.parent_of(x).unwrap()),
    {
        self.lemma_unfold(None);
        assert(self.node_links_ok(x));
        assert(self.parent_ok(x, None));
        self.lemma_not_own_child(x, None);
        assert(self.roots_ok(None));
        assert forall|c: NodeId| #[trigger] self.roots_seq().contains(c) implies self.has(c) && self.parent_of(c) is None by {
            let k = self.roots@.index_of(c);
            assert(self.live@.contains(self.roots@[k]));
        }
    }

    // ---- Queries over the links --------------------------------------------------------

    /// Ancestors of `id` from the parent up to the root (excluding `id`).
    pub fn ancestors(&self, id: NodeId) -> (r: Vec<NodeId>)
        requires
            self.wf(),
        ensures
            r@ == (if self.has(id) { self.anc_of(id) } else { Seq::<NodeId>::empty() }),
    {
        let mut out: Vec<NodeId> = Vec::new();
        if !self.contains(id) {
            return out;
        }
        proof {
            self.lemma_unfold(None);
            assert(self.anc_ok(id));
        }
        let ghost a = self.anc@[id];
        let mut cur = self.get(id).parent;
        while cur.is_some()
            invariant
                self.wf_d(None),
                self.live@.contains(id),
                a == self.anc@[id],
                out@.len() <= a.len(),
                out@ == a.take(out@.len() as int),
                cur == (if out@.len() < a.len() { Some(a[out@.len() as int]) } else { None::<NodeId> }),
            decreases a.len() - out@.len(),
        {
            let c = cur.unwrap();
            let ghost k = out@.len() as int;
            proof {
                self.lemma_unfold(None);
                assert(self.anc_ok(id));
                assert(self.live@.contains(a[k]));
                assert(self.anc@[a[k]] == a.skip(k + 1));
                assert(self.anc_ok(a[k]));
                assert(self.slot_holds(c));
            }
            out.push(c);
            cur = self.get(c).parent;
            proof {
                assert(out@ =~= a.take(k + 1));
            }
        }
        proof {
            assert(out@ =~= a);
        }
        out
    }

    /// Whether `x` is `root` or inside its subtree (`x` must be live).
    fn in_subtree_exec(&self, x: NodeId, root: NodeId) -> (b: bool)
        requires
            self.wf(),
            self.has(x),
        ensures
            b == self.in_subtree(x, root),
    {
        if x.slot == root.slot && x.gen == root.gen {
            return true;
        }
        let a = self.ancestors(x);
        let mut k: usize = 0;
        while k < a.len()
            invariant
                a@ == self.anc_of(x),
                k <= a@.len(),
                forall|j: int| 0 <= j < k ==> a@[j] != root,
            decreases a@.len() - k,
        {
            if a[k].slot == root.slot && a[k].gen == root.gen {
                return true;
            }
            k = k + 1;
        }
        false
    }

    /// Children of `id`, first to last (paint order).
    pub fn children(&self, id: NodeId) -> (r: Vec<NodeId>)
        requires
            self.wf(),
        ensures
            r@ == (if self.has(id) { self.kids_of(id) } else { Seq::<NodeId>::empty() }),
    {
        if !self.contains(id) {
            return Vec::new();
        }
        self.children_in(id, Ghost(None))
    }

    fn children_in(&self, id: NodeId, Ghost(d): Ghost<Option<NodeId>>) -> (r: Vec<NodeId>)
        requires
            self.wf_d(d),
            self.has(id),
        ensures
            r@ == self.kids_of(id),
    {
        let mut out: Vec<NodeId> = Vec::new();
        proof {
            self.lemma_unfold(d);
            assert(self.node_links_ok(id));
        }
        let ghost ch = self.kids@[id];
        let mut cur = self.get(id).first_child;
        while cur.is_some()
            invariant
                self.wf_d(d),
                self.live@.contains(id),
                ch == self.kids@[id],
                self.node_links_ok(id),
                out@.len() <= ch.len(),
                out@ == ch.take(out@.len() as int),
                cur == (if out@.len() < ch.len() { Some(ch[out@.len() as int]) } else { None::<NodeId> }),
            decreases ch.len() - out@.len(),
        {
            let c = cur.unwrap();
            let ghost k = out@.len() as int;
            proof {
                self.lemma_unfold(d);
                assert(self.child_ok(id, ch, k));
                assert(self.slot_holds(c));
            }
            out.push(c);
            cur = self.get(c).next;
            proof {
                assert(out@ =~= ch.take(k + 1));
            }
        }
        proof {
            assert(out@ =~= ch);
        }
        out
    }

    /// Children of `id`, last to first (topmost first).
    pub fn children_rev(&self, id: NodeId) -> (r: Vec<NodeId>)
        requires
            self.wf(),
        ensures
            r@ == (if self.has(id) { self.kids_of(id).reverse() } else { Seq::<NodeId>::empty() }),
    {
        let mut out: Vec<NodeId> = Vec::new();
        if !self.contains(id) {
            return out;
        }
        proof {
            self.lemma_unfold(None);
            assert(self.node_links_ok(id));
        }
        let ghost ch = self.kids@[id];
        let ghost rv = ch.reverse();
        let mut cur = self.get(id).last_child;
        while cur.is_some()
            invariant
                self.wf_d(None),
                self.live@.contains(id),
                ch == self.kids@[id],
                rv == ch.reverse(),
                self.node_links_ok(id),
                out@.len() <= ch.len(),
                out@ == rv.take(out@.len() as int),
                cur == (if out@.len() < ch.len() { Some(ch[ch.len() - 1 - out@.len()]) } else { None::<NodeId> }),
            decreases ch.len() - out@.len(),
        {
            let c = cur.unwrap();
            let ghost k = out@.len() as int;
            proof {
                self.lemma_unfold(None);
                assert(self.child_ok(id, ch, ch.len() - 1 - k));
                assert(self.slot_holds(c));
            }
            out.push(c);
            cur = self.get(c).prev;
            proof {
                assert(out@ =~= rv.take(k + 1));
            }
        }
        proof {
            assert(out@ =~= rv);
        }
        out
    }

    /// The child at `index`; a negative index counts from the end (`-1` = last), like LVGL.
    pub fn child(&self, id: NodeId, index: i32) -> (r: Option<NodeId>)
        requires
            self.wf(),
        ensures
            ({
                let ch = self.kids_of(id);
                if !self.has(id) {
                    r is None
                } else if index >= 0 {
                    r == (if index < ch.len() { Some(ch[index as int]) } else { None::<NodeId> })
                } else {
                    r == (if -index <= ch.len() { Some(ch[ch.len() + index]) } else { None::<NodeId> })
                }
            }),
    {
        if !self.contains(id) {
            return None;
        }
        let ch = self.children(id);
        if index >= 0 {
            let i = index as usize;
            if i < ch.len() {
                Some(ch[i])
            } else {
                None
            }
        } else {
            let back = (-(index as i64)) as usize;
            if back <= ch.len() {
                Some(ch[ch.len() - back])
            } else {
                None
            }
        }
    }

    /// The roots (screens and layers) in creation order.
    pub fn roots(&self) -> (r: Vec<NodeId>)
        ensures
            r@ == self.roots_seq(),
    {
        self.roots.clone()
    }

    /// The root of `id`'s tree (itself for a root).
    pub fn root_of(&self, id: NodeId) -> (r: Option<NodeId>)
        requires
            self.wf(),
        ensures
            r == (if !self.has(id) {
                None::<NodeId>
            } else if self.anc_of(id).len() == 0 {
                Some(id)
            } else {
                Some(self.anc_of(id).last())
            }),
    {
        if !self.contains(id) {
            return None;
        }
        let a = self.ancestors(id);
        if a.len() == 0 {
            Some(id)
        } else {
            Some(a[a.len() - 1])
        }
    }

    /// Position of `id` among its siblings (or among the roots).
    pub fn index(&self, id: NodeId) -> (r: Option<usize>)
        requires
            self.wf(),
        ensures
            r == (if self.has(id) {
                Some(self.list_of(self.parent_of(id)).index_of(id) as usize)
            } else {
                None::<usize>
            }),
    {
        if !self.contains(id) {
            return None;
        }
        proof {
            self.lemma_lists(id);
            self.lemma_unfold(None);
            assert(self.slot_holds(id));
            if self.parent_of(id) is Some {
                self.lemma_lists(self.parent_of(id).unwrap());
            }
        }
        let p = self.get(id).parent;
        let l = match p {
            Some(q) => self.children(q),
            None => self.roots.clone(),
        };
        let ghost lst = self.list_of(self.parent_of(id));
        let mut k: usize = 0;
        while k < l.len() && !(l[k].slot == id.slot && l[k].gen == id.gen)
            invariant
                l@ == lst,
                lst.contains(id),
                k <= l@.len(),
                forall|j: int| 0 <= j < k ==> l@[j] != id,
            decreases l@.len() - k,
        {
            k = k + 1;
        }
        proof {
            if k == l@.len() {
                let j = lst.index_of(id);
                assert(lst[j] == id);
            }
            assert(lst.index_of(id) == k) by {
                let j = lst.index_of(id);
                assert(lst[j] == id);
                assert(l@[k as int] == id);
            }
        }
        Some(k)
    }

    // ---- Moving nodes --------------------------------------------------------------------

    /// What a successful move of `id` under `new_parent` at `index` leaves: the same nodes,
    /// `id` unlinked from its old list and inserted into the new one.
    pub open spec fn moved(&self, o: &Tree, id: NodeId, new_parent: Option<NodeId>, at: int) -> bool {
        &&& self.live_set() == o.live_set()
        &&& self.epoch_value() == o.epoch_value()
        &&& self.parent_of(id) == new_parent
        &&& forall|x: NodeId| #[trigger] o.has(x) && x != id ==> self.parent_of(x) == o.parent_of(x)
        &&& forall|x: NodeId| #[trigger] o.has(x) ==> Self::same_payload(self.nd(x), o.nd(x))
        &&& self.list_of(new_parent) == o.list_without(id, new_parent).insert(at, id)
        &&& forall|q: Option<NodeId>| #[trigger] o.list_exists(q) && q != new_parent ==> self.list_of(q) == o.list_without(id, q)
        &&& forall|x: NodeId| #[trigger] o.has(x) && !o.in_subtree(x, id) ==> self.anc_of(x) == o.anc_of(x)
    }

    /// Moves `id` under `new_parent` (`None` = make it a root) at `index` (`None` = last).
    /// Moving a node into its own subtree is rejected (`InvalidConfig("cycle")`).
    pub fn move_to(&mut self, id: NodeId, new_parent: Option<NodeId>, index: Option<usize>) -> (r: Result<(), EngineError>)
        requires
            old(self).wf(),
        ensures
            final(self).node_count() == old(self).node_count(),
            final(self).gens_kept(old(self)),
            final(self).wf(),
            !old(self).has(id) ==> r == Err::<(), EngineError>(EngineError::NodeNotFound(id)),
            match new_parent {
                Some(p) => {
                    &&& old(self).has(id) && !old(self).has(p) ==> r == Err::<(), EngineError>(EngineError::NodeNotFound(p))
                    &&& old(self).has(id) && old(self).has(p) && old(self).in_subtree(p, id) ==> r == Err::<(), EngineError>(EngineError::InvalidConfig("cycle"))
                },
                None => true,
            },
            r is Ok <==> old(self).has(id) && old(self).list_exists(new_parent) && !(match new_parent {
                Some(p) => old(self).in_subtree(p, id),
                None => false,
            }),
            r is Err ==> *final(self) == *old(self),
            r is Ok ==> final(self).moved(old(self), id, new_parent, Self::clamp_index(index, old(self).list_without(id, new_parent).len())),
    {
        if !self.contains(id) {
            return Err(EngineError::NodeNotFound(id));
        }
        if let Some(p) = new_parent {
            if !self.contains(p) {
                return Err(EngineError::NodeNotFound(p));
            }
            if self.in_subtree_exec(p, id) {
                return Err(EngineError::InvalidConfig("cycle"));
            }
        }
        self.relink(id, new_parent, index);
        Ok(())
    }

    /// Detaches `id` and links it again under `new_parent` at `index`.
    fn relink(&mut self, id: NodeId, new_parent: Option<NodeId>, index: Option<usize>)
        requires
            old(self).wf(),
            old(self).has(id),
            old(self).list_exists(new_parent),
            match new_parent {
                Some(p) => !old(self).in_subtree(p, id),
                None => true,
            },
        ensures
            final(self).gens_kept(old(self)),
            final(self).wf(),
            final(self).moved(old(self), id, new_parent, Self::clamp_index(index, old(self).list_without(id, new_parent).len())),
    {
        proof {
            old(self).lemma_lists(id);
            old(self).lemma_unfold(None);
        }
        self.detach(id);
        let ghost mid = self.kids@;
        let ghost mid_roots = self.roots@;
        let ghost mid_anc = self.anc@;
        proof {
            assert forall|x: NodeId| #[trigger] old(self).has(x) && !old(self).in_subtree(x, id) implies !self.in_subtree(x, id)
                && mid_anc[x] == old(self).anc@[x] by {
                assert(self.live@.contains(x));
            }
        }
        proof {
            self.lemma_unfold(Some(id));
            // The lists after detaching are the lists without `id`.
            assert forall|q: Option<NodeId>| #[trigger] old(self).list_exists(q) implies
                (match q { Some(x) => self.kids@[x], None => self.roots@ }) == old(self).list_without(id, q) by {
                match q {
                    Some(x) => {
                        assert(old(self).live@.contains(x));
                        assert(self.live@.contains(x));
                    },
                    None => {},
                }
            }
        }
        match new_parent {
            Some(p) => {
                let ghost lw = old(self).list_without(id, Some(p));
                let before = match index {
                    Some(i) => {
                        let ch = self.children_in(p, Ghost(Some(id)));
                        if i < ch.len() { Some(ch[i]) } else { None }
                    },
                    None => None,
                };
                proof {
                    assert(self.kids@[p] == lw);
                    assert(self.node_links_ok(p));
                    assert(!self.in_subtree(p, id)) by {
                        assert(!old(self).in_subtree(p, id));
                        assert(self.anc@[p] == old(self).anc@[p]);
                    }
                    match before {
                        Some(b) => {
                            let i = index.unwrap();
                            assert(lw[i as int] == b);
                            assert(lw.index_of(b) == i) by {
                                let k = lw.index_of(b);
                                assert(lw[k] == b);
                            }
                        },
                        None => {},
                    }
                }
                self.attach_before(id, p, before);
                proof {
                    assert forall|x: NodeId| #[trigger] old(self).has(x) && !old(self).in_subtree(x, id) implies self.anc_of(x) == old(self).anc_of(x) by {
                        assert(self.live@.contains(x));
                    }
                    self.lemma_relink_post(old(self), id, new_parent, Self::clamp_index(index, lw.len()), mid, mid_roots);
                }
            },
            None => {
                self.attach_root(id, index);
                proof {
                    self.lemma_unfold(None);
                    assert forall|x: NodeId| #[trigger] old(self).has(x) && !old(self).in_subtree(x, id) implies self.anc_of(x) == old(self).anc_of(x) by {
                        assert(self.live@.contains(x));
                    }
                    self.lemma_relink_post(old(self), id, new_parent, Self::clamp_index(index, old(self).list_without(id, None).len()), mid, mid_roots);
                }
            },
        }
    }

    proof fn lemma_relink_post(&self, o: &Tree, id: NodeId, new_parent: Option<NodeId>, at: int, mid: Map<NodeId, Seq<NodeId>>, mid_roots: Seq<NodeId>)
        requires
            forall|x: NodeId| #[trigger] o.has(x) && !o.in_subtree(x, id) ==> self.anc_of(x) == o.anc_of(x),
            o.wf(),
            self.wf(),
            o.has(id),
            self.live == o.live,
            self.epoch == o.epoch,
            self.nd(id).parent == new_parent,
            forall|x: NodeId| #[trigger] self.live@.contains(x) && x != id ==> self.nd(x).parent == o.nd(x).parent,
            forall|x: NodeId| #[trigger] self.live@.contains(x) ==> Self::same_payload(self.nd(x), o.nd(x)),
            forall|q: Option<NodeId>| #[trigger] o.list_exists(q) ==> (match q { Some(x) => mid[x], None => mid_roots }) == o.list_without(id, q),
            match new_parent {
                Some(p) => {
                    &&& o.has(p)
                    &&& self.kids@[p] == mid[p].insert(at, id)
                    &&& self.roots@ == mid_roots
                    &&& forall|x: NodeId| #[trigger] self.live@.contains(x) && x != p ==> self.kids@[x] == mid[x]
                },
                None => {
                    &&& self.roots@ == mid_roots.insert(at, id)
                    &&& forall|x: NodeId| #[trigger] self.live@.contains(x) ==> self.kids@[x] == mid[x]
                },
            },
        ensures
            self.moved(o, id, new_parent, at),
    {
        assert(o.list_exists(new_parent));
        assert forall|q: Option<NodeId>| #[trigger] o.list_exists(q) && q != new_parent implies self.list_of(q) == o.list_without(id, q) by {
            match q {
                Some(x) => {
                    assert(self.live@.contains(x));
                },
                None => {},
            }
        }
    }

    /// A child of a node inside `r`'s subtree is inside it too.
    pub proof fn lemma_parent_subtree(&self, x: NodeId, r: NodeId)
        requires
            self.wf(),
            self.has(x),
            self.parent_of(x) is Some,
            self.in_subtree(self.parent_of(x).unwrap(), r),
        ensures
            self.in_subtree(x, r),
    {
        self.lemma_unfold(None);
        self.lemma_anc_parent(x, None);
        let p = self.parent_of(x).unwrap();
        if p != r {
            let k = self.anc@[p].index_of(r);
            assert(self.anc@[x][k + 1] == r);
        } else {
            assert(self.anc@[x][0] == r);
        }
    }

    /// A node is never inside the subtree of one of its children.
    pub proof fn lemma_parent_not_below(&self, x: NodeId)
        requires
            self.wf(),
            self.has(x),
            self.parent_of(x) is Some,
        ensures
            !self.in_subtree(self.parent_of(x).unwrap(), x),
            self.has(self.parent_of(x).unwrap()),
    {
        self.lemma_unfold(None);
        self.lemma_anc_parent(x, None);
        let p = self.parent_of(x).unwrap();
        self.lemma_anc_acyclic(x, None);
        if self.in_subtree(p, x) {
            if p == x {
            } else {
                let k = self.anc@[p].index_of(x);
                assert(self.anc@[x][k + 1] == x);
            }
        }
    }

    /// Moves `id` to position `index` among its siblings (clamped to the last position).
    pub fn set_index(&mut self, id: NodeId, index: usize) -> (r: Result<(), EngineError>)
        requires
            old(self).wf(),
        ensures
            final(self).node_count() == old(self).node_count(),
            final(self).gens_kept(old(self)),
            final(self).wf(),
            !old(self).has(id) ==> r == Err::<(), EngineError>(EngineError::NodeNotFound(id)) && *final(self) == *old(self),
            old(self).has(id) ==> r is Ok && final(self).moved(old(self), id, old(self).parent_of(id),
                Self::clamp_index(Some(index), old(self).list_without(id, old(self).parent_of(id)).len())),
    {
        let parent = match self.node(id) {
            Some(n) => n.parent,
            None => {
                return Err(EngineError::NodeNotFound(id));
            },
        };
        proof {
            if parent is Some {
                self.lemma_parent_not_below(id);
            }
        }
        self.move_to(id, parent, Some(index))
    }

    /// Moves `id` under `parent`, right before its child `before` (`None`: as the last child).
    /// `before == Some(id)` keeps the node where it is when it already is a child of `parent`.
    pub fn move_before(&mut self, id: NodeId, parent: NodeId, before: Option<NodeId>) -> (r: Result<(), EngineError>)
        requires
            old(self).wf(),
        ensures
            final(self).node_count() == old(self).node_count(),
            final(self).gens_kept(old(self)),
            final(self).wf(),
            r is Err ==> *final(self) == *old(self),
            !old(self).has(id) ==> r == Err::<(), EngineError>(EngineError::NodeNotFound(id)),
            old(self).has(id) && !old(self).has(parent) ==> r == Err::<(), EngineError>(EngineError::NodeNotFound(parent)),
            old(self).has(id) && old(self).has(parent) && before == Some(id) ==> (r is Ok <==> old(self).parent_of(id) == Some(parent))
                && (r is Ok ==> *final(self) == *old(self)),
            old(self).has(id) && old(self).has(parent) && before != Some(id) ==> (r is Ok <==> (match before {
                Some(b) => old(self).has(b) && old(self).parent_of(b) == Some(parent),
                None => true,
            }) && !old(self).in_subtree(parent, id)),
            old(self).has(id) && old(self).has(parent) && before != Some(id) && (match before {
                Some(b) => old(self).has(b) && old(self).parent_of(b) == Some(parent),
                None => true,
            }) && old(self).in_subtree(parent, id) ==> r == Err::<(), EngineError>(EngineError::InvalidConfig("cycle")),
            old(self).has(id) && old(self).has(parent) && before == Some(id) && old(self).parent_of(id) != Some(parent)
                ==> r == Err::<(), EngineError>(EngineError::InvalidConfig("move_before: `before` is the node itself")),
            old(self).has(id) && old(self).has(parent) && (before matches Some(b) && b != id
                && !(old(self).has(b) && old(self).parent_of(b) == Some(parent)))
                ==> r == Err::<(), EngineError>(EngineError::InvalidConfig("move_before: `before` is not a child of `parent`")),
            r is Ok && before != Some(id) ==> final(self).moved(old(self), id, Some(parent), match before {
                Some(b) => old(self).list_without(id, Some(parent)).index_of(b),
                None => old(self).list_without(id, Some(parent)).len() as int,
            }),
    {
        if !self.contains(id) {
            return Err(EngineError::NodeNotFound(id));
        }
        if !self.contains(parent) {
            return Err(EngineError::NodeNotFound(parent));
        }
        if let Some(b) = before {
            if b.slot == id.slot && b.gen == id.gen {
                let pid = self.parent(id);
                return match pid {
                    Some(q) => if q.slot == parent.slot && q.gen == parent.gen {
                        Ok(())
                    } else {
                        Err(EngineError::InvalidConfig("move_before: `before` is the node itself"))
                    },
                    None => Err(EngineError::InvalidConfig("move_before: `before` is the node itself")),
                };
            }
            let pb = self.parent(b);
            let ok = match pb {
                Some(q) => q.slot == parent.slot && q.gen == parent.gen,
                None => false,
            };
            if !ok {
                return Err(EngineError::InvalidConfig("move_before: `before` is not a child of `parent`"));
            }
        }
        if self.in_subtree_exec(parent, id) {
            return Err(EngineError::InvalidConfig("cycle"));
        }
        proof {
            self.lemma_lists(id);
            self.lemma_unfold(None);
            match before {
                Some(b) => {
                    self.lemma_lists(b);
                    assert(self.parent_ok(b, None));
                },
                None => {},
            }
        }
        self.detach(id);
        let ghost mid = self.kids@;
        let ghost mid_roots = self.roots@;
        proof {
            self.lemma_unfold(Some(id));
            assert forall|q: Option<NodeId>| #[trigger] old(self).list_exists(q) implies
                (match q { Some(x) => self.kids@[x], None => self.roots@ }) == old(self).list_without(id, q) by {
                match q {
                    Some(x) => {
                        assert(self.live@.contains(x));
                    },
                    None => {},
                }
            }
            assert(!self.in_subtree(parent, id)) by {
                assert(self.anc@[parent] == old(self).anc@[parent]);
            }
            let lw = old(self).list_without(id, Some(parent));
            assert(self.kids@[parent] == lw);
            match before {
                Some(b) => {
                    assert(self.live@.contains(b));
                    assert(self.parent_ok(b, Some(id)));
                },
                None => {},
            }
        }
        self.attach_before(id, parent, before);
        proof {
            let lw = old(self).list_without(id, Some(parent));
            assert forall|x: NodeId| #[trigger] old(self).has(x) && !old(self).in_subtree(x, id) implies self.anc_of(x) == old(self).anc_of(x) by {
                assert(self.live@.contains(x));
            }
            self.lemma_unfold(None);
            self.lemma_relink_post(old(self), id, Some(parent), match before {
                Some(b) => lw.index_of(b),
                None => lw.len() as int,
            }, mid, mid_roots);
        }
        Ok(())
    }

    // ---- Subtrees ------------------------------------------------------------------------

    /// The child of `x` on the path from `x` down to `y` (meaningful when `y` is strictly
    /// inside `x`'s subtree).
    spec fn top_below(&self, y: NodeId, x: NodeId) -> NodeId {
        let a = self.anc@[y];
        if a.len() == self.anc@[x].len() + 1 {
            y
        } else {
            a[a.len() - self.anc@[x].len() - 2]
        }
    }

    /// Being inside a subtree is transitive.
    proof fn lemma_sub_trans(&self, b: NodeId, a: NodeId, c: NodeId, d: Option<NodeId>)
        requires
            self.wf_d(d),
            self.live@.contains(b),
            self.in_subtree(b, a),
            self.in_subtree(a, c),
        ensures
            self.in_subtree(b, c),
    {
        if b != a {
            let k = self.anc@[b].index_of(a);
            self.lemma_anc_in_subtree(b, k, c, d);
        }
    }

    /// A node strictly inside `x`'s subtree lies in the subtree of one child of `x`.
    proof fn lemma_top_below(&self, y: NodeId, x: NodeId, d: Option<NodeId>)
        requires
            self.wf_d(d),
            self.live@.contains(y),
            self.live@.contains(x),
            self.in_subtree(y, x),
            y != x,
        ensures
            self.kids@[x].contains(self.top_below(y, x)),
            self.in_subtree(y, self.top_below(y, x)),
            self.live@.contains(self.top_below(y, x)),
    {
        reveal(Tree::wf_d);
        self.lemma_subtree_path(y, x, d);
        let a = self.anc@[y];
        let k = a.index_of(x);
        assert(self.anc_ok(y));
        if k == 0 {
            assert(self.parent_ok(y, d));
        } else {
            let c = a[k - 1];
            assert(self.live@.contains(c));
            assert(self.anc@[c] == a.skip(k));
            assert(self.anc_ok(c));
            assert(self.anc@[c][0] == x);
            assert(self.parent_ok(c, d));
            assert(self.top_below(y, x) == c);
        }
    }

    /// For `y` inside the subtree of a child `c` of `x`, the path from `x` to `y` goes
    /// through `c`.
    proof fn lemma_top_below_of(&self, y: NodeId, c: NodeId, x: NodeId, d: Option<NodeId>)
        requires
            self.wf_d(d),
            self.live@.contains(y),
            self.live@.contains(x),
            self.kids@[x].contains(c),
            self.in_subtree(y, c),
        ensures
            self.in_subtree(y, x),
            y != x,
            self.top_below(y, x) == c,
    {
        reveal(Tree::wf_d);
        self.lemma_not_own_child(x, d);
        assert(self.live@.contains(c));
        self.lemma_anc_parent(c, d);
        self.lemma_anc_acyclic(x, d);
        assert(self.in_subtree(c, x)) by {
            assert(self.anc@[c][0] == x);
        }
        self.lemma_sub_trans(y, c, x, d);
        if y == c {
            assert(self.anc@[y].len() == self.anc@[x].len() + 1);
        } else {
            self.lemma_subtree_path(y, c, d);
            let a = self.anc@[y];
            let k = a.index_of(c);
            assert(a[k] == c);
            assert(k == a.len() - self.anc@[x].len() - 2);
            if y == x {
                assert(self.anc@[c].len() == self.anc@[x].len() + 1);
                assert(a.len() > self.anc@[c].len());
            }
        }
    }

    /// What the loop of `collect` keeps: `out` is `o0` followed by the subtrees of the first
    /// `i` children of `x`, each node after all of its descendants.
    spec fn collect_inv(&self, x: NodeId, ch: Seq<NodeId>, o0: Seq<NodeId>, out: Seq<NodeId>, i: int) -> bool {
        let s = out.skip(o0.len() as int);
        &&& out.len() >= o0.len()
        &&& out.take(o0.len() as int) == o0
        &&& s.no_duplicates()
        &&& forall|y: NodeId| #[trigger] s.contains(y) <==> (self.has(y) && self.in_subtree(y, x) && y != x
            && ch.index_of(self.top_below(y, x)) < i)
        &&& forall|j: int, k: int| 0 <= j < k < s.len() ==> !self.in_subtree(#[trigger] s[k], #[trigger] s[j])
    }

    proof fn lemma_collect_pre(&self, x: NodeId, ch: Seq<NodeId>, o0: Seq<NodeId>, out: Seq<NodeId>, i: int)
        requires
            self.wf(),
            self.has(x),
            ch == self.kids@[x],
            ch.no_duplicates(),
            0 <= i < ch.len(),
            self.collect_inv(x, ch, o0, out, i),
            forall|y: NodeId| #[trigger] o0.contains(y) ==> !(self.has(y) && self.in_subtree(y, x)),
        ensures
            forall|y: NodeId| #[trigger] out.contains(y) ==> !(self.has(y) && self.in_subtree(y, ch[i])),
    {
        let c = ch[i];
        let start = o0.len() as int;
        assert(ch.index_of(c) == i);
        assert forall|y: NodeId| #[trigger] out.contains(y) implies !(self.has(y) && self.in_subtree(y, c)) by {
            if self.has(y) && self.in_subtree(y, c) {
                self.lemma_top_below_of(y, c, x, None);
                let q = out.index_of(y);
                if q < start {
                    assert(out.take(start)[q] == y);
                    assert(o0.contains(y));
                } else {
                    assert(out.skip(start)[q - start] == y);
                    assert(out.skip(start).contains(y));
                }
            }
        }
    }

    #[verifier::spinoff_prover]
    proof fn lemma_collect_step(&self, x: NodeId, ch: Seq<NodeId>, o0: Seq<NodeId>, before: Seq<NodeId>, after: Seq<NodeId>, i: int)
        requires
            self.wf(),
            self.has(x),
            ch == self.kids@[x],
            ch.no_duplicates(),
            0 <= i < ch.len(),
            self.collect_inv(x, ch, o0, before, i),
            after.len() >= before.len(),
            after.take(before.len() as int) == before,
            Self::post_order_of(self, after.skip(before.len() as int), ch[i]),
        ensures
            self.collect_inv(x, ch, o0, after, i + 1),
    {
        reveal(Tree::wf_d);
        let c = ch[i];
        let start = o0.len() as int;
        let s0 = before.skip(start);
        let si = after.skip(before.len() as int);
        assert(after.skip(start) =~= s0 + si);
        assert(after.take(start) =~= before.take(start));
        assert(ch.index_of(c) == i);
        assert forall|y: NodeId| si.contains(y) implies self.top_below(y, x) == c && self.in_subtree(y, x) && y != x by {
            self.lemma_top_below_of(y, c, x, None);
        }
        assert forall|y: NodeId| #[trigger] after.skip(start).contains(y) <==> (self.has(y) && self.in_subtree(y, x) && y != x
            && ch.index_of(self.top_below(y, x)) < i + 1) by {
            if self.has(y) && self.in_subtree(y, x) && y != x && ch.index_of(self.top_below(y, x)) == i {
                self.lemma_top_below(y, x, None);
                assert(si.contains(y));
            }
            if after.skip(start).contains(y) {
                let q = after.skip(start).index_of(y);
                if q >= s0.len() {
                    assert(si[q - s0.len()] == y);
                } else {
                    assert(s0[q] == y);
                }
            }
        }
        assert forall|a: int, b: int| 0 <= a < b < s0.len() + si.len() implies (s0 + si)[a] != (s0 + si)[b] by {
            if a < s0.len() && b >= s0.len() {
                let y = si[b - s0.len()];
                assert(s0.contains(s0[a]));
                assert(si.contains(y));
            }
        }
        assert forall|j: int, k: int| 0 <= j < k < after.skip(start).len() implies !self.in_subtree(#[trigger] after.skip(start)[k], #[trigger] after.skip(start)[j]) by {
            let s = after.skip(start);
            if j < s0.len() && k >= s0.len() {
                let a = s[j];
                let b = s[k];
                assert(s0.contains(a));
                assert(si.contains(b));
                if self.in_subtree(b, a) {
                    self.lemma_top_below(a, x, None);
                    let t = self.top_below(a, x);
                    self.lemma_sub_trans(b, a, t, None);
                    self.lemma_top_below_of(b, t, x, None);
                }
            } else if j < s0.len() {
                assert(s[j] == s0[j] && s[k] == s0[k]);
            } else {
                assert(s[j] == si[j - s0.len()] && s[k] == si[k - s0.len()]);
            }
        }
    }

    #[verifier::spinoff_prover]
    proof fn lemma_collect_last(&self, x: NodeId, ch: Seq<NodeId>, o0: Seq<NodeId>, before: Seq<NodeId>, after: Seq<NodeId>)
        requires
            self.wf(),
            self.has(x),
            ch == self.kids@[x],
            ch.no_duplicates(),
            self.collect_inv(x, ch, o0, before, ch.len() as int),
            after == before.push(x),
        ensures
            after.len() >= o0.len(),
            after.take(o0.len() as int) == o0,
            Self::post_order_of(self, after.skip(o0.len() as int), x),
    {
        reveal(Tree::wf_d);
        let start = o0.len() as int;
        let s = before.skip(start);
        let t = after.skip(start);
        assert(t =~= s.push(x));
        assert(after.take(start) =~= o0);
        assert(!s.contains(x));
        assert forall|y: NodeId| #[trigger] t.contains(y) <==> (self.has(y) && self.in_subtree(y, x)) by {
            if self.has(y) && self.in_subtree(y, x) && y != x {
                self.lemma_top_below(y, x, None);
                let tb = self.top_below(y, x);
                let q = ch.index_of(tb);
                assert(s.contains(y));
            }
            if t.contains(y) && y != x {
                let q = t.index_of(y);
                assert(s[q] == y);
            }
        }
        assert forall|j: int, k: int| 0 <= j < k < t.len() implies !self.in_subtree(#[trigger] t[k], #[trigger] t[j]) by {
            if k == t.len() - 1 {
                let a = t[j];
                assert(s.contains(a));
                if self.in_subtree(x, a) {
                    self.lemma_top_below(a, x, None);
                    let tb = self.top_below(a, x);
                    self.lemma_sub_trans(x, a, tb, None);
                    self.lemma_top_below_of(x, tb, x, None);
                }
            } else {
                assert(t[j] == s[j] && t[k] == s[k]);
            }
        }
    }

    /// The ids of `x`'s subtree, appended to `out` with every node after all of its
    /// descendants and `x` last.
    fn collect(&self, x: NodeId, out: &mut Vec<NodeId>)
        requires
            self.wf(),
            self.has(x),
            forall|y: NodeId| #[trigger] old(out)@.contains(y) ==> !(self.has(y) && self.in_subtree(y, x)),
        ensures
            final(out)@.len() >= old(out)@.len(),
            final(out)@.take(old(out)@.len() as int) == old(out)@,
            Self::post_order_of(self, final(out)@.skip(old(out)@.len() as int), x),
            final(out)@ == old(out)@ + self.post_walk(x),
        decreases self.live@.len() - self.anc@[x].len(),
    {
        let ghost o0 = out@;
        proof {
            self.lemma_unfold(None);
            self.lemma_anc_len(x, None);
            self.lemma_not_own_child(x, None);
            assert(self.node_links_ok(x));
            assert(out@.skip(o0.len() as int) =~= Seq::<NodeId>::empty());
            assert(out@.take(o0.len() as int) =~= o0);
            assert(out@ =~= o0 + self.post_walk_upto(x, 0));
        }
        let ch = self.children(x);
        let mut i: usize = 0;
        while i < ch.len()
            invariant
                self.wf(),
                self.has(x),
                ch@ == self.kids@[x],
                ch@.no_duplicates(),
                forall|c: NodeId| #[trigger] ch@.contains(c) ==> self.live@.contains(c) && self.nd(c).parent == Some(x),
                self.anc@[x].len() < self.live@.len(),
                i <= ch@.len(),
                forall|y: NodeId| #[trigger] o0.contains(y) ==> !(self.has(y) && self.in_subtree(y, x)),
                self.collect_inv(x, ch@, o0, out@, i as int),
                out@ == o0 + self.post_walk_upto(x, i as int),
            decreases ch@.len() - i,
        {
            let c = ch[i];
            let ghost before = out@;
            proof {
                assert(ch@[i as int] == c);
                assert(ch@.contains(c));
                self.lemma_unfold(None);
                self.lemma_anc_parent(c, None);
                self.lemma_collect_pre(x, ch@, o0, before, i as int);
            }
            self.collect(c, out);
            proof {
                self.lemma_collect_step(x, ch@, o0, before, out@, i as int);
                assert(out@ =~= o0 + self.post_walk_upto(x, i + 1));
            }
            i = i + 1;
        }
        let ghost before = out@;
        out.push(x);
        proof {
            self.lemma_collect_last(x, ch@, o0, before, out@);
            assert(out@ =~= o0 + self.post_walk(x));
        }
    }

    /// `s` lists the subtree of `x` once each, every node after all of its descendants, and
    /// `x` last.
    pub open spec fn post_order_of(t: &Tree, s: Seq<NodeId>, x: NodeId) -> bool {
        &&& s.no_duplicates()
        &&& forall|y: NodeId| #[trigger] s.contains(y) <==> t.has(y) && t.in_subtree(y, x)
        &&& forall|j: int, k: int| 0 <= j < k < s.len() ==> !t.in_subtree(#[trigger] s[k], #[trigger] s[j])
        &&& s.len() > 0 && s.last() == x
    }


    /// Removing a detached subtree from the arena leaves a well-formed tree.
    #[verifier::spinoff_prover]
    #[verifier::rlimit(60)]
    proof fn lemma_removed_wf(&self, m: &Tree, id: NodeId)
        requires
            m.wf_d(Some(id)),
            self.arena_wf(),
            forall|y: NodeId| #[trigger] self.live@.contains(y) <==> m.live@.contains(y) && !m.in_subtree(y, id),
            forall|y: NodeId| #[trigger] self.live@.contains(y) ==> self.nd(y) == m.nd(y),
            self.roots == m.roots,
            self.kids == m.kids,
            self.anc == m.anc,
        ensures
            self.wf(),
    {
        reveal(Tree::wf_d);
        assert forall|x: NodeId| #[trigger] self.live@.contains(x) implies
            self.node_links_ok(x) && self.parent_ok(x, None) && self.anc_ok(x) by {
            self.lemma_removed_node(m, id, x);
        }
        assert forall|i: int| 0 <= i < self.roots@.len() implies self.live@.contains(#[trigger] self.roots@[i])
            && self.nd(self.roots@[i]).parent is None by {
            let r = self.roots@[i];
            assert(m.roots_ok(Some(id)));
            assert(m.roots@[i] == r);
            assert(m.live@.contains(r) && m.nd(r).parent is None && r != id);
            assert(m.anc_ok(r));
            assert(m.anc@[r].len() == 0);
            assert(!m.in_subtree(r, id));
            assert(self.live@.contains(r));
        }
    }

    #[verifier::spinoff_prover]
    #[verifier::rlimit(60)]
    proof fn lemma_removed_node(&self, m: &Tree, id: NodeId, x: NodeId)
        requires
            m.wf_d(Some(id)),
            self.arena_wf(),
            forall|y: NodeId| #[trigger] self.live@.contains(y) <==> m.live@.contains(y) && !m.in_subtree(y, id),
            forall|y: NodeId| #[trigger] self.live@.contains(y) ==> self.nd(y) == m.nd(y),
            self.roots == m.roots,
            self.kids == m.kids,
            self.anc == m.anc,
            self.live@.contains(x),
        ensures
            self.node_links_ok(x),
            self.parent_ok(x, None),
            self.anc_ok(x),
    {
        reveal(Tree::wf_d);
        assert(m.live@.contains(x));
        assert(m.node_links_ok(x) && m.parent_ok(x, Some(id)) && m.anc_ok(x));
        let ch = m.kids@[x];
        assert forall|i: int| 0 <= i < ch.len() implies #[trigger] self.child_ok(x, ch, i) by {
            assert(m.child_ok(x, ch, i));
            let c = ch[i];
            if m.in_subtree(c, id) {
                assert(c != id);
                m.lemma_anc_parent(c, Some(id));
                assert(m.anc@[c][0] == x);
                m.lemma_anc_in_subtree(c, 0, id, Some(id));
                let k = m.anc@[c].index_of(id);
                assert(k > 0);
                assert(m.anc@[x][k - 1] == id);
            }
        }
        let a = m.anc@[x];
        assert forall|i: int| 0 <= i < a.len() implies self.live@.contains(#[trigger] a[i]) && self.anc@[a[i]] == a.skip(i + 1) by {
            if m.in_subtree(a[i], id) {
                m.lemma_anc_in_subtree(x, i, id, Some(id));
            }
        }
        match m.nd(x).parent {
            Some(p) => {
                if m.in_subtree(p, id) {
                    m.lemma_anc_in_subtree(x, 0, id, Some(id));
                }
            },
            None => {
                assert(x != id);
            },
        }
    }

    /// The ids of `id`'s subtree in post-order (children before their parent); empty for a
    /// dead id.
    pub fn post_order(&self, id: NodeId) -> (r: Vec<NodeId>)
        requires
            self.wf(),
        ensures
            self.has(id) ==> r@ == self.post_walk(id),
            !self.has(id) ==> r@.len() == 0,
    {
        let mut out: Vec<NodeId> = Vec::new();
        if !self.contains(id) {
            return out;
        }
        self.collect(id, &mut out);
        proof {
            assert(out@ =~= self.post_walk(id));
        }
        out
    }

    /// Deletes `id` and its whole subtree. Returns the deleted ids in post-order (children
    /// before their parent).
    pub fn delete(&mut self, id: NodeId) -> (r: Result<Vec<NodeId>, EngineError>)
        requires
            old(self).wf(),
        ensures
            final(self).wf(),
            !old(self).has(id) ==> r == Err::<Vec<NodeId>, EngineError>(EngineError::NodeNotFound(id)) && *final(self) == *old(self),
            old(self).has(id) ==> r is Ok,
            r is Ok ==> {
                &&& Self::post_order_of(old(self), r->Ok_0@, id)
                &&& r->Ok_0@ == old(self).post_walk(id)
                &&& final(self).live_set() == old(self).live_set().difference(old(self).subtree(id))
                &&& final(self).epoch_value() == old(self).epoch_value()
                &&& forall|x: NodeId| #[trigger] final(self).has(x) ==> final(self).parent_of(x) == old(self).parent_of(x)
                    && Self::same_payload(final(self).nd(x), old(self).nd(x))
                &&& forall|q: Option<NodeId>| #[trigger] final(self).list_exists(q) ==> final(self).list_of(q) == old(self).list_without(id, q)
                &&& old(self).subtree(id).finite()
                &&& final(self).node_count() == old(self).node_count() - old(self).subtree(id).len()
                &&& forall|x: NodeId| #[trigger] old(self).subtree(id).contains(x) ==> final(self).retired(x)
                &&& forall|y: NodeId| #[trigger] old(self).retired(y)
                    && !(exists|x: NodeId| #[trigger] old(self).subtree(id).contains(x) && x.slot == y.slot) ==> final(self).retired(y)
            },
    {
        if !self.contains(id) {
            return Err(EngineError::NodeNotFound(id));
        }
        let mut order: Vec<NodeId> = Vec::new();
        proof {
            assert(order@.skip(0) =~= order@);
        }
        self.collect(id, &mut order);
        proof {
            assert(order@.skip(0) =~= order@);
            assert(order@ =~= old(self).post_walk(id));
            old(self).lemma_lists(id);
            old(self).lemma_unfold(None);
        }
        self.detach(id);
        let ghost m = *self;
        proof {
            // The subtree of `id` is the same set before and after unlinking it.
            self.lemma_unfold(Some(id));
            assert forall|y: NodeId| #[trigger] m.live@.contains(y) implies (m.in_subtree(y, id) <==> old(self).in_subtree(y, id)) by {
                if old(self).in_subtree(y, id) && y != id {
                    old(self).lemma_subtree_path(y, id, None);
                    let k = old(self).anc@[y].index_of(id);
                    assert(m.anc@[y][k] == id);
                }
            }
        }
        let mut k: usize = 0;
        while k < order.len()
            invariant
                m.wf_d(Some(id)),
                self.arena_wf(),
                Self::post_order_of(old(self), order@, id),
                order@ == old(self).post_walk(id),
                forall|y: NodeId| #[trigger] m.live@.contains(y) ==> (m.in_subtree(y, id) <==> old(self).in_subtree(y, id)),
                m.live == old(self).live,
                k <= order@.len(),
                forall|y: NodeId| #[trigger] self.live@.contains(y) <==> m.live@.contains(y) && !order@.take(k as int).contains(y),
                forall|y: NodeId| #[trigger] self.live@.contains(y) ==> self.nd(y) == m.nd(y),
                self.roots == m.roots,
                self.kids == m.kids,
                self.anc == m.anc,
                self.epoch == m.epoch,
                self.slots@.len() == m.slots@.len(),
                forall|j: int| 0 <= j < k ==> self.retired(#[trigger] order@[j]),
                forall|s: int| #![trigger self.slots@[s]] 0 <= s < m.slots@.len() && (forall|j: int| 0 <= j < k ==> (#[trigger] order@[j]).slot != s)
                    ==> self.slots@[s].gen == m.slots@[s].gen,
            decreases order@.len() - k,
        {
            let n = order[k];
            proof {
                assert(order@.contains(n));
                assert(!order@.take(k as int).contains(n)) by {
                    if order@.take(k as int).contains(n) {
                        let q = order@.take(k as int).index_of(n);
                        assert(order@[q] == n);
                    }
                }
                assert(self.live@.contains(n));
            }
            let ghost before = *self;
            self.arena_remove(n);
            proof {
                assert forall|y: NodeId| #[trigger] self.live@.contains(y) <==> m.live@.contains(y) && !order@.take(k + 1).contains(y) by {
                    assert(order@.take(k + 1) =~= order@.take(k as int).push(n));
                }
                m.lemma_unfold(Some(id));
                assert forall|j: int| 0 <= j < k + 1 implies self.retired(#[trigger] order@[j]) by {
                    if j < k {
                        let x = order@[j];
                        assert(order@.contains(x));
                        assert(m.live@.contains(x) && m.live@.contains(n));
                        assert(m.slot_holds(x) && m.slot_holds(n));
                        assert(x != n);
                        assert(x.slot != n.slot);
                        assert(before.retired(x));
                    }
                }
                assert forall|s: int| #![trigger self.slots@[s]] 0 <= s < m.slots@.len() && (forall|j: int| 0 <= j < k + 1 ==> (#[trigger] order@[j]).slot != s)
                    implies self.slots@[s].gen == m.slots@[s].gen by {
                    assert(order@[k as int].slot != s);
                    assert(forall|j: int| 0 <= j < k ==> (#[trigger] order@[j]).slot != s);
                }
            }
            k = k + 1;
        }
        proof {
            assert(order@.take(order@.len() as int) =~= order@);
            assert forall|y: NodeId| #[trigger] self.live@.contains(y) <==> m.live@.contains(y) && !m.in_subtree(y, id) by {}
            self.lemma_removed_wf(&m, id);
            assert(self.live@ =~= old(self).live@.difference(old(self).subtree(id)));
            assert(old(self).subtree(id).subset_of(old(self).live@));
            vstd::set_lib::lemma_len_subset(old(self).subtree(id), old(self).live@);
            vstd::set_lib::lemma_set_difference_len(old(self).live@, old(self).subtree(id));
            assert(old(self).live@.intersect(old(self).subtree(id)) =~= old(self).subtree(id));
            assert forall|x: NodeId| #[trigger] old(self).subtree(id).contains(x) implies self.retired(x) by {
                assert(order@.contains(x));
                let j = order@.index_of(x);
                assert(order@[j] == x);
            }
            assert forall|y: NodeId| #[trigger] old(self).retired(y)
                && !(exists|x: NodeId| #[trigger] old(self).subtree(id).contains(x) && x.slot == y.slot) implies self.retired(y) by {
                let s = y.slot as int;
                assert forall|j: int| 0 <= j < order@.len() implies (#[trigger] order@[j]).slot != s by {
                    assert(order@.contains(order@[j]));
                    assert(old(self).subtree(id).contains(order@[j]));
                }
                assert(self.slots@[s].gen == m.slots@[s].gen);
            }
            self.lemma_unfold(None);
            assert forall|q: Option<NodeId>| #[trigger] self.list_exists(q) implies self.list_of(q) == old(self).list_without(id, q) by {
                match q {
                    Some(x) => {
                        assert(self.live@.contains(x));
                        assert(x != id);
                    },
                    None => {},
                }
            }
        }
        Ok(order)
    }


    // ---- Swapping ------------------------------------------------------------------------

    proof fn lemma_index_of(s: Seq<NodeId>, i: int)
        requires
            s.no_duplicates(),
            0 <= i < s.len(),
        ensures
            s.index_of(s[i]) == i,
    {
        let k = s.index_of(s[i]);
        assert(s[k] == s[i]);
    }

    fn same_list(a: Option<NodeId>, b: Option<NodeId>) -> (r: bool)
        ensures
            r == (a == b),
    {
        match (a, b) {
            (Some(x), Some(y)) => x.slot == y.slot && x.gen == y.gen,
            (None, None) => true,
            _ => false,
        }
    }

    /// Swaps `a` and `b`, which sit in two different sibling lists.
    #[verifier::spinoff_prover]
    #[verifier::rlimit(60)]
    fn swap_apart(&mut self, a: NodeId, b: NodeId, ia: usize, ib: usize)
        requires
            old(self).wf(),
            old(self).has(a),
            old(self).has(b),
            old(self).parent_of(a) != old(self).parent_of(b),
            !old(self).in_subtree(a, b),
            !old(self).in_subtree(b, a),
            ia == old(self).list_of(old(self).parent_of(a)).index_of(a),
            ib == old(self).list_of(old(self).parent_of(b)).index_of(b),
        ensures
            final(self).gens_kept(old(self)),
            final(self).wf(),
            Self::swapped(final(self), old(self), a, b),
    {
        let ghost o = *old(self);
        let ghost pa = o.parent_of(a);
        let ghost pb = o.parent_of(b);
        let ghost la = o.list_of(pa);
        let ghost lb = o.list_of(pb);
        let pa_x = self.parent(a);
        let pb_x = self.parent(b);
        proof {
            o.lemma_lists(a);
            o.lemma_lists(b);
            assert(la[ia as int] == a) by { let k = la.index_of(a); assert(la[k] == a); }
            assert(lb[ib as int] == b) by { let k = lb.index_of(b); assert(lb[k] == b); }
            match pb {
                Some(p) => {
                    if o.in_subtree(p, a) {
                        o.lemma_parent_subtree(b, a);
                    }
                },
                None => {},
            }
            match pa {
                Some(p) => {
                    o.lemma_parent_not_below(a);
                    if o.in_subtree(p, b) {
                        o.lemma_parent_subtree(a, b);
                    }
                },
                None => {},
            }
        }
        let r1 = self.move_to(a, pb_x, Some(ib));
        let ghost m = *self;
        proof {
            assert(r1 is Ok);
            assert(o.list_exists(pa));
            assert(o.list_without(a, pb) == lb);
            assert(m.list_of(pb) == lb.insert(ib as int, a));
            assert(m.list_of(pa) == la.remove(ia as int));
            match pa {
                Some(p) => {
                    assert(o.has(p) && !o.in_subtree(p, a));
                    assert(m.anc_of(p) == o.anc_of(p));
                },
                None => {},
            }
            m.lemma_lists(b);
            match pb {
                Some(q) => { m.lemma_lists(q); },
                None => {},
            }
            assert(m.parent_of(b) == pb);
        }
        let r2 = self.move_to(b, pa_x, Some(ia));
        proof {
            assert(r2 is Ok);
            let lb1 = lb.insert(ib as int, a);
            assert(lb1[ib + 1] == b);
            Self::lemma_index_of(lb1, ib + 1);
            assert(m.list_exists(pb));
            assert(m.list_exists(pa));
            assert(self.list_of(pa) =~= la.update(ia as int, b));
            assert(self.list_of(pb) =~= lb.update(ib as int, a));
            assert forall|q: Option<NodeId>| #[trigger] o.list_exists(q) && q != pa && q != pb implies self.list_of(q) == o.list_of(q) by {
                assert(m.list_exists(q));
            }
            assert(self.live_set() == o.live_set());
            assert(m.has(a));
            assert(self.parent_of(a) == pb);
            assert(self.parent_of(b) == pa);
            assert forall|x: NodeId| #[trigger] o.has(x) && x != a && x != b implies self.parent_of(x) == o.parent_of(x) by {
                assert(m.has(x));
            }
            assert forall|x: NodeId| #[trigger] o.has(x) implies Self::same_payload(self.nd(x), o.nd(x)) by {
                assert(m.has(x));
            }
        }
    }

    /// Swaps `first` and `second`, siblings in one list with `first` before `second`.
    #[verifier::spinoff_prover]
    #[verifier::rlimit(60)]
    fn swap_siblings(&mut self, first: NodeId, second: NodeId, i1: usize, i2: usize)
        requires
            old(self).wf(),
            old(self).has(first),
            old(self).has(second),
            old(self).parent_of(first) == old(self).parent_of(second),
            i1 == old(self).list_of(old(self).parent_of(first)).index_of(first),
            i2 == old(self).list_of(old(self).parent_of(first)).index_of(second),
            i1 < i2,
        ensures
            final(self).gens_kept(old(self)),
            final(self).wf(),
            Self::swapped(final(self), old(self), first, second),
    {
        let ghost o = *old(self);
        let ghost p = o.parent_of(first);
        let ghost l = o.list_of(p);
        let p_x = self.parent(first);
        proof {
            o.lemma_lists(first);
            o.lemma_lists(second);
            assert(l[i1 as int] == first) by { let k = l.index_of(first); assert(l[k] == first); }
            assert(l[i2 as int] == second) by { let k = l.index_of(second); assert(l[k] == second); }
            if p is Some {
                o.lemma_parent_not_below(second);
                o.lemma_parent_not_below(first);
            }
        }
        let r1 = self.move_to(second, p_x, Some(i1));
        let ghost m = *self;
        proof {
            assert(r1 is Ok);
            let l1 = l.remove(i2 as int).insert(i1 as int, second);
            assert(m.list_of(p) == l1);
            match p {
                Some(q) => {
                    assert(!o.in_subtree(q, second));
                    assert(m.anc_of(q) == o.anc_of(q));
                },
                None => {},
            }
            m.lemma_lists(first);
            match p {
                Some(q) => { m.lemma_lists(q); },
                None => {},
            }
            assert(l1[i1 + 1] == first);
            Self::lemma_index_of(l1, i1 + 1);
        }
        let r2 = self.move_to(first, p_x, Some(i2));
        proof {
            assert(r2 is Ok);
            let l1 = l.remove(i2 as int).insert(i1 as int, second);
            assert(l1.remove(i1 + 1) =~= l.remove(i2 as int).update(i1 as int, second));
            assert(self.list_of(p) =~= l.update(i1 as int, second).update(i2 as int, first));
            assert forall|q: Option<NodeId>| #[trigger] o.list_exists(q) && q != p implies self.list_of(q) == o.list_of(q) by {
                assert(m.list_exists(q));
            }
            assert(m.list_exists(p));
            assert(m.has(second));
            assert(self.parent_of(second) == p);
            assert(self.parent_of(first) == p);
            assert forall|x: NodeId| #[trigger] o.has(x) && x != first && x != second implies self.parent_of(x) == o.parent_of(x) by {
                assert(m.has(x));
            }
            assert forall|x: NodeId| #[trigger] o.has(x) implies Self::same_payload(self.nd(x), o.nd(x)) by {
                assert(m.has(x));
            }
        }
    }

    proof fn lemma_list_len(&self, x: NodeId)
        requires
            self.wf(),
            self.has(x),
        ensures
            self.list_of(self.parent_of(x)).len() <= 65535,
            0 <= self.list_of(self.parent_of(x)).index_of(x) < self.list_of(self.parent_of(x)).len(),
    {
        self.lemma_lists(x);
        self.lemma_unfold(None);
        let q = self.parent_of(x);
        let l = self.list_of(q);
        match q {
            Some(p) => { self.lemma_lists(p); },
            None => {},
        }
        assert forall|i: int| 0 <= i < l.len() implies self.live@.contains(#[trigger] l[i]) by {
            assert(l.contains(l[i]));
        }
        self.lemma_distinct_live_len(l);
        let k = l.index_of(x);
        assert(l[k] == x);
    }

    /// What a swap of `a` and `b` leaves: each takes the other's place in its sibling list.
    pub open spec fn swapped(t: &Tree, o: &Tree, a: NodeId, b: NodeId) -> bool {
        let pa = o.parent_of(a);
        let pb = o.parent_of(b);
        let ia = o.list_of(pa).index_of(a);
        let ib = o.list_of(pb).index_of(b);
        &&& t.live_set() == o.live_set()
        &&& t.epoch_value() == o.epoch_value()
        &&& t.parent_of(a) == pb
        &&& t.parent_of(b) == pa
        &&& forall|x: NodeId| #[trigger] o.has(x) && x != a && x != b ==> t.parent_of(x) == o.parent_of(x)
        &&& forall|x: NodeId| #[trigger] o.has(x) ==> Self::same_payload(t.nd(x), o.nd(x))
        &&& (if pa == pb {
            t.list_of(pa) == o.list_of(pa).update(ia, b).update(ib, a)
        } else {
            &&& t.list_of(pa) == o.list_of(pa).update(ia, b)
            &&& t.list_of(pb) == o.list_of(pb).update(ib, a)
        })
        &&& forall|q: Option<NodeId>| #[trigger] o.list_exists(q) && q != pa && q != pb ==> t.list_of(q) == o.list_of(q)
    }

    /// Swaps the positions of `a` and `b` in their parents (they may have different parents).
    /// Rejected if one is an ancestor of the other.
    pub fn swap(&mut self, a: NodeId, b: NodeId) -> (r: Result<(), EngineError>)
        requires
            old(self).wf(),
        ensures
            final(self).node_count() == old(self).node_count(),
            final(self).gens_kept(old(self)),
            final(self).wf(),
            r is Err ==> *final(self) == *old(self),
            a == b ==> (r is Ok <==> old(self).has(a)) && (r is Ok ==> *final(self) == *old(self)),
            a == b && !old(self).has(a) ==> r == Err::<(), EngineError>(EngineError::NodeNotFound(a)),
            a != b && !old(self).has(a) ==> r == Err::<(), EngineError>(EngineError::NodeNotFound(a)),
            a != b && old(self).has(a) && !old(self).has(b) ==> r == Err::<(), EngineError>(EngineError::NodeNotFound(b)),
            a != b && old(self).has(a) && old(self).has(b) ==> (r is Ok <==> !old(self).in_subtree(a, b) && !old(self).in_subtree(b, a)),
            a != b && old(self).has(a) && old(self).has(b) && (old(self).in_subtree(a, b) || old(self).in_subtree(b, a))
                ==> r == Err::<(), EngineError>(EngineError::InvalidConfig("cycle")),
            a != b && r is Ok ==> Self::swapped(final(self), old(self), a, b),
    {
        if a.slot == b.slot && a.gen == b.gen {
            return if self.contains(a) {
                Ok(())
            } else {
                Err(EngineError::NodeNotFound(a))
            };
        }
        if !self.contains(a) {
            return Err(EngineError::NodeNotFound(a));
        }
        if !self.contains(b) {
            return Err(EngineError::NodeNotFound(b));
        }
        if self.in_subtree_exec(a, b) || self.in_subtree_exec(b, a) {
            return Err(EngineError::InvalidConfig("cycle"));
        }
        let pa = self.parent(a);
        let pb = self.parent(b);
        proof {
            self.lemma_list_len(a);
            self.lemma_list_len(b);
        }
        let ia = self.index(a).unwrap();
        let ib = self.index(b).unwrap();
        if Self::same_list(pa, pb) {
            proof {
                self.lemma_lists(a);
                self.lemma_lists(b);
                let l = self.list_of(pa);
                let ka = l.index_of(a);
                let kb = l.index_of(b);
                assert(l[ka] == a && l[kb] == b);
            }
            if ia < ib {
                self.swap_siblings(a, b, ia, ib);
            } else {
                self.swap_siblings(b, a, ib, ia);
                proof {
                    let l = old(self).list_of(pa);
                    assert(l.update(ib as int, a).update(ia as int, b) =~= l.update(ia as int, b).update(ib as int, a));
                }
            }
        } else {
            self.swap_apart(a, b, ia, ib);
        }
        Ok(())
    }


    /// A moved node lands where it was asked to go: after a successful
    /// [`move_to`](Self::move_to), [`index`](Self::index) of the node is the requested
    /// position, clamped to the length of the new sibling list.
    pub proof fn lemma_move_lands_at(t: &Tree, o: &Tree, id: NodeId, new_parent: Option<NodeId>, at: int)
        requires
            o.wf(),
            t.wf(),
            o.has(id),
            t.moved(o, id, new_parent, at),
            0 <= at <= o.list_without(id, new_parent).len(),
        ensures
            t.has(id),
            t.parent_of(id) == new_parent,
            t.list_of(new_parent).index_of(id) == at,
    {
        assert(t.has(id));
        t.lemma_lists(id);
        let l = t.list_of(new_parent);
        match new_parent {
            Some(p) => { t.lemma_lists(p); },
            None => {},
        }
        assert(l[at] == id);
        let k = l.index_of(id);
        assert(l[k] == id);
    }

    /// Swapping two nodes twice puts everything back: the second swap of `a` and `b` (which
    /// succeeds, see [`lemma_swap_again`](Self::lemma_swap_again)) restores every sibling
    /// list and every parent link that the first one changed.
    pub proof fn lemma_swap_twice(o: &Tree, t1: &Tree, t2: &Tree, a: NodeId, b: NodeId)
        requires
            o.wf(),
            t1.wf(),
            o.has(a),
            o.has(b),
            a != b,
            Self::swapped(t1, o, a, b),
            Self::swapped(t2, t1, a, b),
        ensures
            t2.live_set() == o.live_set(),
            forall|x: NodeId| #[trigger] o.has(x) ==> t2.parent_of(x) == o.parent_of(x),
            forall|q: Option<NodeId>| #[trigger] o.list_exists(q) ==> t2.list_of(q) == o.list_of(q),
    {
        let pa = o.parent_of(a);
        let pb = o.parent_of(b);
        o.lemma_lists(a);
        o.lemma_lists(b);
        o.lemma_list_len(a);
        o.lemma_list_len(b);
        let la = o.list_of(pa);
        let lb = o.list_of(pb);
        let ia = la.index_of(a);
        let ib = lb.index_of(b);
        assert(la[ia] == a && lb[ib] == b);
        assert(t1.has(a) && t1.has(b));
        t1.lemma_lists(a);
        t1.lemma_lists(b);
        match pa {
            Some(p) => { o.lemma_lists(p); t1.lemma_lists(p); assert(t1.has(p)); },
            None => {},
        }
        match pb {
            Some(p) => { o.lemma_lists(p); t1.lemma_lists(p); assert(t1.has(p)); },
            None => {},
        }
        assert(t1.parent_of(a) == pb && t1.parent_of(b) == pa);
        let ja = t1.list_of(pb).index_of(a);
        let jb = t1.list_of(pa).index_of(b);
        if pa == pb {
            assert(ia != ib);
            let l1 = t1.list_of(pa);
            assert(l1 == la.update(ia, b).update(ib, a));
            assert(l1[ib] == a && l1[ia] == b);
            assert(l1[ja] == a);
            assert(l1[jb] == b);
            assert(ja == ib);
            assert(jb == ia);
            assert(l1.update(jb, a).update(ja, b) =~= la);
        } else {
            let l1a = t1.list_of(pa);
            let l1b = t1.list_of(pb);
            assert(l1a == la.update(ia, b));
            assert(l1b == lb.update(ib, a));
            assert(l1b[ja] == a && l1b[ib] == a);
            assert(l1a[jb] == b && l1a[ia] == b);
            assert(ja == ib);
            assert(jb == ia);
            assert(l1a.update(jb, a) =~= la);
            assert(l1b.update(ja, b) =~= lb);
        }
        assert forall|q: Option<NodeId>| #[trigger] o.list_exists(q) implies t2.list_of(q) == o.list_of(q) by {
            if q != pa && q != pb {
                assert(t1.list_exists(q));
            }
        }
        assert forall|x: NodeId| #[trigger] o.has(x) implies t2.parent_of(x) == o.parent_of(x) by {
            assert(t1.has(x));
        }
    }

    /// Two well-formed trees with the same nodes, in which `z` and each of its ancestors in
    /// `o` have the same parent, give `z` the same ancestors.
    proof fn lemma_same_chain(t: &Tree, o: &Tree, z: NodeId)
        requires
            t.wf(),
            o.wf(),
            o.has(z),
            t.live_set() == o.live_set(),
            t.parent_of(z) == o.parent_of(z),
            forall|i: int| 0 <= i < o.anc_of(z).len() ==> t.parent_of(#[trigger] o.anc_of(z)[i]) == o.parent_of(o.anc_of(z)[i]),
        ensures
            t.anc_of(z) == o.anc_of(z),
        decreases o.anc_of(z).len(),
    {
        t.lemma_unfold(None);
        o.lemma_unfold(None);
        assert(t.anc_ok(z) && o.anc_ok(z));
        match o.parent_of(z) {
            None => {
                assert(t.anc@[z] =~= o.anc@[z]);
            },
            Some(p) => {
                t.lemma_anc_parent(z, None);
                o.lemma_anc_parent(z, None);
                assert(o.anc_of(p) =~= o.anc_of(z).skip(1));
                assert forall|i: int| 0 <= i < o.anc_of(p).len() implies t.parent_of(#[trigger] o.anc_of(p)[i]) == o.parent_of(o.anc_of(p)[i]) by {
                    assert(o.anc_of(p)[i] == o.anc_of(z)[i + 1]);
                }
                assert(o.anc_of(z)[0] == p);
                Self::lemma_same_chain(t, o, p);
                assert(t.anc@[z] =~= o.anc@[z]);
            },
        }
    }

    /// Ancestors after a swap of `a` and `b`: each takes the other's ancestors, and a node
    /// inside neither subtree keeps its own.
    pub proof fn lemma_swap_ancestors(o: &Tree, t1: &Tree, a: NodeId, b: NodeId)
        requires
            o.wf(),
            t1.wf(),
            o.has(a),
            o.has(b),
            a != b,
            !o.in_subtree(a, b),
            !o.in_subtree(b, a),
            Self::swapped(t1, o, a, b),
        ensures
            t1.anc_of(a) == o.anc_of(b),
            t1.anc_of(b) == o.anc_of(a),
            forall|x: NodeId| #[trigger] o.has(x) && !o.in_subtree(x, a) && !o.in_subtree(x, b) ==> t1.anc_of(x) == o.anc_of(x),
    {
        o.lemma_unfold(None);
        t1.lemma_unfold(None);
        // The ancestors of a node outside both subtrees are neither `a` nor `b`, so their
        // parent links did not change.
        assert forall|x: NodeId| #[trigger] o.has(x) && !o.in_subtree(x, a) && !o.in_subtree(x, b) implies t1.anc_of(x) == o.anc_of(x) by {
            assert(o.anc_ok(x));
            assert forall|i: int| 0 <= i < o.anc_of(x).len() implies t1.parent_of(#[trigger] o.anc_of(x)[i]) == o.parent_of(o.anc_of(x)[i]) by {
                let y = o.anc_of(x)[i];
                assert(o.anc_of(x).contains(y));
                assert(o.live@.contains(y));
                assert(o.has(y));
                assert(y != a && y != b);
            }
            Self::lemma_same_chain(t1, o, x);
        }
        // The parent of `a` (if any) is outside both subtrees: it is an ancestor of `a`,
        // and `b` is not one.
        match o.parent_of(a) {
            None => {
                assert(o.anc_ok(a));
                assert(t1.anc_ok(b));
                assert(t1.anc@[b] =~= o.anc@[a]);
            },
            Some(p) => {
                o.lemma_anc_parent(a, None);
                o.lemma_anc_acyclic(a, None);
                assert(o.anc_of(a)[0] == p);
                assert(!o.in_subtree(p, a)) by {
                    if o.anc_of(p).contains(a) {
                        assert(o.anc_of(a).contains(a));
                    }
                }
                assert(!o.in_subtree(p, b)) by {
                    if o.anc_of(p).contains(b) {
                        assert(o.anc_of(a).contains(b));
                    }
                }
                assert(o.has(p));
                assert(t1.anc_of(p) == o.anc_of(p));
                t1.lemma_anc_parent(b, None);
                assert(t1.anc@[b] =~= o.anc@[a]);
            },
        }
        match o.parent_of(b) {
            None => {
                assert(o.anc_ok(b));
                assert(t1.anc_ok(a));
                assert(t1.anc@[a] =~= o.anc@[b]);
            },
            Some(p) => {
                o.lemma_anc_parent(b, None);
                o.lemma_anc_acyclic(b, None);
                assert(o.anc_of(b)[0] == p);
                assert(!o.in_subtree(p, b)) by {
                    if o.anc_of(p).contains(b) {
                        assert(o.anc_of(b).contains(b));
                    }
                }
                assert(!o.in_subtree(p, a)) by {
                    if o.anc_of(p).contains(a) {
                        assert(o.anc_of(b).contains(a));
                    }
                }
                assert(o.has(p));
                assert(t1.anc_of(p) == o.anc_of(p));
                t1.lemma_anc_parent(a, None);
                assert(t1.anc@[a] =~= o.anc@[b]);
            },
        }
    }

    /// A swap that succeeded can be undone: afterwards neither node is inside the other's
    /// subtree, so swapping them again succeeds as well.
    pub proof fn lemma_swap_again(o: &Tree, t1: &Tree, a: NodeId, b: NodeId)
        requires
            o.wf(),
            t1.wf(),
            o.has(a),
            o.has(b),
            a != b,
            !o.in_subtree(a, b),
            !o.in_subtree(b, a),
            Self::swapped(t1, o, a, b),
        ensures
            t1.has(a) && t1.has(b),
            !t1.in_subtree(a, b),
            !t1.in_subtree(b, a),
    {
        Self::lemma_swap_ancestors(o, t1, a, b);
        o.lemma_anc_acyclic(a, None);
        o.lemma_anc_acyclic(b, None);
    }

    /// What is left of `area` after the clipping of the ancestors `anc` (nearest first):
    /// `None` as soon as one is hidden, each one without `OVERFLOW_VISIBLE` and
    /// `LAYOUT_PASSTHROUGH` cuts the area to its coordinates, and `None` when nothing
    /// remains.
    pub open spec fn clip_through(&self, anc: Seq<NodeId>, area: Rect) -> Option<Rect>
        decreases anc.len(),
    {
        if anc.len() == 0 {
            if area.spec_is_empty() { None } else { Some(area) }
        } else {
            let n = self.nd(anc[0]);
            if n.flags.bits & HIDDEN == HIDDEN {
                None
            } else if n.flags.bits & (OVERFLOW_VISIBLE | LAYOUT_PASSTHROUGH) == 0 {
                match meet(area, n.coords) {
                    Some(r) => self.clip_through(anc.drop_first(), r),
                    None => None,
                }
            } else {
                self.clip_through(anc.drop_first(), area)
            }
        }
    }

    /// The part of the absolute `area` drawn by `id` that its ancestors let through, with
    /// the root of its tree (whose display the caller looks up): `None` for an unknown or
    /// hidden node, an empty area, a hidden ancestor, or when nothing remains after the
    /// clipping of the ancestors without `OVERFLOW_VISIBLE` (see
    /// [`clip_through`](Self::clip_through)).
    pub fn visible_part(&self, id: NodeId, area: Rect) -> (r: Option<(NodeId, Rect)>)
        requires
            self.wf(),
        ensures
            r == (if !self.has(id) || self.nd(id).flags.bits & HIDDEN == HIDDEN || area.spec_is_empty() {
                None::<(NodeId, Rect)>
            } else {
                match self.clip_through(self.anc_of(id), area) {
                    Some(v) => Some((if self.anc_of(id).len() == 0 { id } else { self.anc_of(id).last() }, v)),
                    None => None::<(NodeId, Rect)>,
                }
            }),
    {
        let n = match self.node(id) {
            Some(n) => n,
            None => { return None; },
        };
        if n.is_hidden() || area.is_empty() {
            return None;
        }
        let a = self.ancestors(id);
        let ghost anc = self.anc_of(id);
        proof {
            self.lemma_unfold(None);
            assert(self.anc_ok(id));
            assert(anc.skip(0) =~= anc);
        }
        let mut cur = area;
        let mut i: usize = 0;
        while i < a.len()
            invariant
                self.wf(),
                self.has(id),
                a@ == anc,
                anc == self.anc_of(id),
                forall|k: int| 0 <= k < anc.len() ==> self.has(#[trigger] anc[k]),
                i <= a@.len(),
                self.clip_through(anc, area) == self.clip_through(anc.skip(i as int), cur),
            decreases a@.len() - i,
        {
            let x = a[i];
            proof {
                assert(anc.skip(i as int)[0] == x);
                assert(anc.skip(i as int).drop_first() =~= anc.skip(i + 1));
            }
            let an = self.node(x).unwrap();
            if an.is_hidden() {
                return None;
            }
            if !an.flags.intersects(OVERFLOW_VISIBLE | LAYOUT_PASSTHROUGH) {
                match cur.intersection(&an.coords) {
                    Some(r) => { cur = r; },
                    None => { return None; },
                }
            }
            i = i + 1;
        }
        proof {
            assert(anc.skip(a@.len() as int) =~= Seq::<NodeId>::empty());
        }
        if cur.is_empty() {
            return None;
        }
        let root = if a.len() == 0 { id } else { a[a.len() - 1] };
        Some((root, cur))
    }

    /// Whether two nodes have the same links (parent, children, siblings, child count).
    pub open spec fn same_links(a: Node, b: Node) -> bool {
        &&& a.parent == b.parent
        &&& a.first_child == b.first_child
        &&& a.last_child == b.last_child
        &&& a.prev == b.prev
        &&& a.next == b.next
        &&& a.child_count == b.child_count
    }

    /// `p`'s payload (class, flags, state, geometry, layout marks, group) with the links of
    /// `links`.
    pub open spec fn with_payload(links: Node, p: Node) -> Node {
        Node {
            parent: links.parent,
            first_child: links.first_child,
            last_child: links.last_child,
            prev: links.prev,
            next: links.next,
            child_count: links.child_count,
            ..p
        }
    }

    /// Sets the payload of `id` (everything but its links, which stay as they are): the
    /// way to change a node's flags, state, coordinates, scroll offset, extra draw size,
    /// layout marks or group. Returns whether the node exists (else nothing changes).
    pub fn set_payload(&mut self, id: NodeId, p: Node) -> (r: bool)
        requires
            old(self).wf(),
        ensures
            final(self).node_count() == old(self).node_count(),
            final(self).wf(),
            final(self).gens_kept(old(self)),
            r == old(self).has(id),
            !r ==> *final(self) == *old(self),
            r ==> final(self).nd(id) == Self::with_payload(old(self).nd(id), p),
            final(self).live_set() == old(self).live_set(),
            final(self).roots_seq() == old(self).roots_seq(),
            final(self).epoch_value() == old(self).epoch_value(),
            forall|x: NodeId| #[trigger] old(self).has(x) && x != id ==> final(self).nd(x) == old(self).nd(x),
            forall|x: NodeId| #[trigger] old(self).has(x) ==> final(self).kids_of(x) == old(self).kids_of(x)
                && final(self).anc_of(x) == old(self).anc_of(x),
    {
        if !self.contains(id) {
            return false;
        }
        proof {
            old(self).lemma_unfold(None);
            assert(old(self).slot_holds(id));
        }
        let cur = self.get(id);
        let n = Node {
            parent: cur.parent,
            first_child: cur.first_child,
            last_child: cur.last_child,
            prev: cur.prev,
            next: cur.next,
            child_count: cur.child_count,
            ..p
        };
        self.put(id, n);
        proof {
            assert forall|x: NodeId| #[trigger] self.live@.contains(x) <==> self.slot_holds(x) by {
                assert(old(self).live@.contains(x) <==> old(self).slot_holds(x));
            }
            assert forall|i: int| 0 <= i < self.free@.len() implies (#[trigger] self.free@[i] as int)
                < self.slots@.len() && self.slots@[self.free@[i] as int].node is None by {
                assert(old(self).free@[i] != id.slot) by {
                    if old(self).free@[i] == id.slot {
                        assert(old(self).slots@[id.slot as int].node is None);
                    }
                }
            }
            assert(self.arena_wf());
            assert forall|x: NodeId| #[trigger] old(self).live@.contains(x) && x != id implies self.nd(x) == old(self).nd(x) by {
                assert(old(self).slot_holds(x));
                assert(x.slot != id.slot);
            }
            assert forall|x: NodeId| #[trigger] old(self).live@.contains(x) implies Self::same_links(self.nd(x), old(self).nd(x)) by {
                if x != id {
                    assert(self.nd(x) == old(self).nd(x));
                }
            }
            self.lemma_same_links_wf(old(self));
        }
        true
    }

    proof fn lemma_same_links_wf(&self, o: &Tree)
        requires
            o.wf(),
            self.arena_wf(),
            self.live == o.live,
            self.roots == o.roots,
            self.kids == o.kids,
            self.anc == o.anc,
            forall|x: NodeId| #[trigger] o.live@.contains(x) ==> Self::same_links(self.nd(x), o.nd(x)),
        ensures
            self.wf(),
    {
        o.lemma_unfold(None);
        assert(self.roots_ok(None)) by {
            assert forall|i: int| 0 <= i < self.roots@.len() implies self.live@.contains(#[trigger] self.roots@[i])
                && self.nd(self.roots@[i]).parent is None && None::<NodeId> != Some(self.roots@[i]) by {
                assert(o.live@.contains(o.roots@[i]));
            }
        }
        assert forall|x: NodeId| #[trigger] self.live@.contains(x) implies self.kids@.dom().contains(x)
            && self.anc@.dom().contains(x) && self.node_links_ok(x) && self.parent_ok(x, None) && self.anc_ok(x) by {
            assert(o.node_links_ok(x) && o.parent_ok(x, None) && o.anc_ok(x));
            let ch = o.kids@[x];
            assert forall|k: int| 0 <= k < ch.len() implies #[trigger] self.child_ok(x, ch, k) by {
                assert(o.child_ok(x, ch, k));
                assert(o.live@.contains(ch[k]));
            }
            let a = o.anc@[x];
            assert forall|i: int| 0 <= i < a.len() implies self.live@.contains(#[trigger] a[i])
                && self.anc@[a[i]] == a.skip(i + 1) by {
                assert(o.live@.contains(a[i]));
            }
        }
        self.lemma_fold(None);
    }

    // ---- Layout marks ------------------------------------------------------------------

    /// `id` followed by its ancestors, nearest first.
    pub open spec fn chain_of(&self, id: NodeId) -> Seq<NodeId> {
        seq![id] + self.anc_of(id)
    }

    /// A tree keeps its own generation counters.
    pub proof fn lemma_gens_refl(&self)
        ensures
            self.gens_kept(self),
    {
    }

    /// Keeping the generation counters twice keeps them.
    pub proof fn lemma_gens_trans(a: &Tree, b: &Tree, c: &Tree)
        requires
            a.gens_kept(b),
            b.gens_kept(c),
        ensures
            a.gens_kept(c),
    {
        assert forall|s: int| 0 <= s < c.slots@.len() implies (#[trigger] a.slots@[s]).gen == c.slots@[s].gen by {
            assert(a.slots@[s].gen == b.slots@[s].gen);
        }
    }

    /// Two trees with the same live set know the same nodes.
    pub proof fn lemma_same_live(a: &Tree, b: &Tree)
        requires
            a.live_set() == b.live_set(),
        ensures
            forall|x: NodeId| #[trigger] a.has(x) == b.has(x),
    {
    }

    /// Facts about the chain of `id` (the node, then its ancestors) that walks up the tree
    /// rely on: it starts with `id`, holds live nodes only, repeats none, and each node but
    /// the last has the next one as its parent.
    pub proof fn lemma_chain(&self, id: NodeId)
        requires
            self.wf(),
            self.has(id),
        ensures
            self.chain_of(id)[0] == id,
            self.chain_of(id).no_duplicates(),
            forall|i: int| 0 <= i < self.chain_of(id).len() ==> self.has(#[trigger] self.chain_of(id)[i]),
            forall|i: int| 0 <= i < self.chain_of(id).len() - 1 ==> #[trigger] self.parent_of(self.chain_of(id)[i]) == Some(self.chain_of(id)[i + 1]),
            self.parent_of(self.chain_of(id).last()) is None,
            self.chain_of(id).len() <= 65535,
    {
        let a = self.anc_of(id);
        let chain = self.chain_of(id);
        self.lemma_unfold(None);
        self.lemma_anc_len(id, None);
        assert(self.anc_ok(id));
        self.lemma_anc_acyclic(id, None);
        assert forall|i: int, j: int| 0 <= i < chain.len() && 0 <= j < chain.len() && i != j implies chain[i] != chain[j] by {
            if i > 0 && j > 0 {
                assert(a[i - 1] != a[j - 1]);
            } else if i == 0 {
                assert(chain[j] == a[j - 1]);
                assert(a.contains(chain[j]));
            } else {
                assert(chain[i] == a[i - 1]);
                assert(a.contains(chain[i]));
            }
        }
        assert forall|i: int| 0 <= i < chain.len() implies self.has(#[trigger] chain[i]) by {
            if i > 0 {
                assert(chain[i] == a[i - 1]);
            }
        }
        assert forall|i: int| 0 <= i < chain.len() - 1 implies #[trigger] self.parent_of(chain[i]) == Some(chain[i + 1]) by {
            let x = chain[i];
            assert(self.anc_ok(x));
            if i == 0 {
                assert(a.len() > 0);
            } else {
                assert(chain[i] == a[i - 1]);
                assert(self.anc@[a[i - 1]] == a.skip(i));
                assert(a.skip(i)[0] == a[i]);
            }
        }
        let last = chain.last();
        assert(self.anc_ok(last));
        if chain.len() > 1 {
            assert(last == a[a.len() - 1]);
            assert(self.anc@[a[a.len() - 1]] == a.skip(a.len() as int));
        }
    }

    // ---- Pre-order walks and dumps -------------------------------------------------------

    /// The subtree of `x` in depth-first pre-order: `x`, then the walks of its children,
    /// first to last.
    pub open spec fn pre_walk(&self, x: NodeId) -> Seq<NodeId>
        decreases self.node_count() - self.anc_of(x).len(), self.kids_of(x).len() + 1,
            when self.wf() && self.has(x)
    {
        seq![x] + self.pre_walk_upto(x, self.kids_of(x).len() as int)
    }

    /// The pre-order walks of the first `i` children of `x`, one after the other.
    pub open spec fn pre_walk_upto(&self, x: NodeId, i: int) -> Seq<NodeId>
        decreases self.node_count() - self.anc_of(x).len(), i,
            when self.wf() && self.has(x) && 0 <= i <= self.kids_of(x).len()
            via Self::lemma_walk_decreases
    {
        if i <= 0 {
            Seq::empty()
        } else {
            self.pre_walk_upto(x, i - 1) + self.pre_walk(self.kids_of(x)[i - 1])
        }
    }

    /// The subtree of `x` in depth-first post-order: the walks of its children, first to
    /// last, then `x`.
    pub open spec fn post_walk(&self, x: NodeId) -> Seq<NodeId>
        decreases self.node_count() - self.anc_of(x).len(), self.kids_of(x).len() + 1,
            when self.wf() && self.has(x)
    {
        self.post_walk_upto(x, self.kids_of(x).len() as int).push(x)
    }

    /// The post-order walks of the first `i` children of `x`, one after the other.
    pub open spec fn post_walk_upto(&self, x: NodeId, i: int) -> Seq<NodeId>
        decreases self.node_count() - self.anc_of(x).len(), i,
            when self.wf() && self.has(x) && 0 <= i <= self.kids_of(x).len()
            via Self::lemma_post_walk_decreases
    {
        if i <= 0 {
            Seq::empty()
        } else {
            self.post_walk_upto(x, i - 1) + self.post_walk(self.kids_of(x)[i - 1])
        }
    }

    /// A child of a live node is one level deeper, and no node is deeper than the tree
    /// has nodes.
    proof fn lemma_child_deeper(&self, x: NodeId, i: int)
        requires
            self.wf(),
            self.has(x),
            0 <= i < self.kids_of(x).len(),
        ensures
            self.has(self.kids_of(x)[i]),
            self.anc_of(self.kids_of(x)[i]).len() == self.anc_of(x).len() + 1,
            self.anc_of(self.kids_of(x)[i]).len() < self.node_count(),
    {
        let c = self.kids@[x][i];
        self.lemma_unfold(None);
        assert(self.node_links_ok(x));
        assert(self.child_ok(x, self.kids@[x], i));
        self.lemma_anc_parent(c, None);
        self.lemma_anc_len(c, None);
    }

    #[via_fn]
    proof fn lemma_walk_decreases(&self, x: NodeId, i: int) {
        if self.wf() && self.has(x) && 0 < i <= self.kids_of(x).len() {
            self.lemma_child_deeper(x, i - 1);
        }
    }

    #[via_fn]
    proof fn lemma_post_walk_decreases(&self, x: NodeId, i: int) {
        if self.wf() && self.has(x) && 0 < i <= self.kids_of(x).len() {
            self.lemma_child_deeper(x, i - 1);
        }
    }

    /// `s` lists the subtree of `x` once each, `x` first and every node before all of its
    /// descendants.
    pub open spec fn pre_order_of(t: &Tree, s: Seq<NodeId>, x: NodeId) -> bool {
        &&& s.no_duplicates()
        &&& forall|y: NodeId| #[trigger] s.contains(y) <==> t.has(y) && t.in_subtree(y, x)
        &&& forall|j: int, k: int| 0 <= j < k < s.len() ==> !t.in_subtree(#[trigger] s[j], #[trigger] s[k])
        &&& s.len() > 0 && s[0] == x
    }

    spec fn pre_inv(&self, x: NodeId, ch: Seq<NodeId>, o0: Seq<NodeId>, out: Seq<NodeId>, i: int) -> bool {
        let s = out.skip(o0.len() as int);
        &&& out.len() > o0.len()
        &&& out.take(o0.len() as int) == o0
        &&& s[0] == x
        &&& s.no_duplicates()
        &&& forall|y: NodeId| #[trigger] s.contains(y) <==> (y == x || (self.has(y) && self.in_subtree(y, x) && y != x
            && ch.index_of(self.top_below(y, x)) < i))
        &&& forall|j: int, k: int| 0 <= j < k < s.len() ==> !self.in_subtree(#[trigger] s[j], #[trigger] s[k])
    }

    proof fn lemma_pre_pre(&self, x: NodeId, ch: Seq<NodeId>, o0: Seq<NodeId>, out: Seq<NodeId>, i: int)
        requires
            self.wf(),
            self.has(x),
            ch == self.kids@[x],
            ch.no_duplicates(),
            0 <= i < ch.len(),
            self.pre_inv(x, ch, o0, out, i),
            forall|y: NodeId| #[trigger] o0.contains(y) ==> !(self.has(y) && self.in_subtree(y, x)),
        ensures
            forall|y: NodeId| #[trigger] out.contains(y) ==> !(self.has(y) && self.in_subtree(y, ch[i])),
    {
        let c = ch[i];
        let start = o0.len() as int;
        assert(ch.index_of(c) == i);
        assert forall|y: NodeId| #[trigger] out.contains(y) implies !(self.has(y) && self.in_subtree(y, c)) by {
            if self.has(y) && self.in_subtree(y, c) {
                self.lemma_top_below_of(y, c, x, None);
                let q = out.index_of(y);
                if q < start {
                    assert(out.take(start)[q] == y);
                    assert(o0.contains(y));
                } else {
                    assert(out.skip(start)[q - start] == y);
                    assert(out.skip(start).contains(y));
                }
            }
        }
    }

    #[verifier::spinoff_prover]
    proof fn lemma_pre_step(&self, x: NodeId, ch: Seq<NodeId>, o0: Seq<NodeId>, before: Seq<NodeId>, after: Seq<NodeId>, i: int)
        requires
            self.wf(),
            self.has(x),
            ch == self.kids@[x],
            ch.no_duplicates(),
            0 <= i < ch.len(),
            self.pre_inv(x, ch, o0, before, i),
            after.len() >= before.len(),
            after.take(before.len() as int) == before,
            Self::pre_order_of(self, after.skip(before.len() as int), ch[i]),
        ensures
            self.pre_inv(x, ch, o0, after, i + 1),
    {
        reveal(Tree::wf_d);
        let c = ch[i];
        let start = o0.len() as int;
        let s0 = before.skip(start);
        let si = after.skip(before.len() as int);
        assert(after.skip(start) =~= s0 + si);
        assert(after.take(start) =~= before.take(start));
        assert(ch.index_of(c) == i);
        assert forall|y: NodeId| si.contains(y) implies self.top_below(y, x) == c && self.in_subtree(y, x) && y != x by {
            self.lemma_top_below_of(y, c, x, None);
        }
        assert forall|y: NodeId| #[trigger] after.skip(start).contains(y) <==> (y == x || (self.has(y) && self.in_subtree(y, x) && y != x
            && ch.index_of(self.top_below(y, x)) < i + 1)) by {
            if self.has(y) && self.in_subtree(y, x) && y != x && ch.index_of(self.top_below(y, x)) == i {
                self.lemma_top_below(y, x, None);
                assert(si.contains(y));
            }
            if y == x {
                assert(s0[0] == x);
                assert(after.skip(start)[0] == x);
            }
            if after.skip(start).contains(y) {
                let q = after.skip(start).index_of(y);
                if q >= s0.len() {
                    assert(si[q - s0.len()] == y);
                } else {
                    assert(s0[q] == y);
                }
            }
        }
        assert forall|a: int, b: int| 0 <= a < b < s0.len() + si.len() implies (s0 + si)[a] != (s0 + si)[b] by {
            if a < s0.len() && b >= s0.len() {
                let y = si[b - s0.len()];
                assert(s0.contains(s0[a]));
                assert(si.contains(y));
            }
        }
        assert forall|j: int, k: int| 0 <= j < k < after.skip(start).len() implies !self.in_subtree(#[trigger] after.skip(start)[j], #[trigger] after.skip(start)[k]) by {
            let s = after.skip(start);
            if j < s0.len() && k >= s0.len() {
                let a = s[j];
                let b = s[k];
                assert(s0.contains(a));
                assert(si.contains(b));
                if self.in_subtree(a, b) {
                    self.lemma_top_below_of(b, c, x, None);
                    self.lemma_sub_trans(a, b, c, None);
                    if a == x {
                        self.lemma_top_below_of(x, c, x, None);
                    } else {
                        self.lemma_top_below_of(a, c, x, None);
                    }
                }
            } else if j < s0.len() {
                assert(s[j] == s0[j] && s[k] == s0[k]);
            } else {
                assert(s[j] == si[j - s0.len()] && s[k] == si[k - s0.len()]);
            }
        }
    }

    #[verifier::spinoff_prover]
    proof fn lemma_pre_last(&self, x: NodeId, ch: Seq<NodeId>, o0: Seq<NodeId>, out: Seq<NodeId>)
        requires
            self.wf(),
            self.has(x),
            ch == self.kids@[x],
            ch.no_duplicates(),
            self.pre_inv(x, ch, o0, out, ch.len() as int),
        ensures
            out.len() >= o0.len(),
            out.take(o0.len() as int) == o0,
            Self::pre_order_of(self, out.skip(o0.len() as int), x),
    {
        reveal(Tree::wf_d);
        let s = out.skip(o0.len() as int);
        assert forall|y: NodeId| #[trigger] s.contains(y) <==> (self.has(y) && self.in_subtree(y, x)) by {
            if self.has(y) && self.in_subtree(y, x) && y != x {
                self.lemma_top_below(y, x, None);
                let tb = self.top_below(y, x);
                let q = ch.index_of(tb);
            }
        }
    }

    /// The ids of `x`'s subtree, appended to `out` in pre-order.
    fn collect_pre(&self, x: NodeId, out: &mut Vec<NodeId>)
        requires
            self.wf(),
            self.has(x),
            forall|y: NodeId| #[trigger] old(out)@.contains(y) ==> !(self.has(y) && self.in_subtree(y, x)),
        ensures
            final(out)@.len() >= old(out)@.len(),
            final(out)@.take(old(out)@.len() as int) == old(out)@,
            Self::pre_order_of(self, final(out)@.skip(old(out)@.len() as int), x),
            final(out)@ == old(out)@ + self.pre_walk(x),
        decreases self.live@.len() - self.anc@[x].len(),
    {
        let ghost o0 = out@;
        proof {
            self.lemma_unfold(None);
            self.lemma_anc_len(x, None);
            self.lemma_not_own_child(x, None);
            assert(self.node_links_ok(x));
        }
        out.push(x);
        proof {
            let s = out@.skip(o0.len() as int);
            assert(s =~= seq![x]);
            assert(out@ =~= o0 + seq![x] + self.pre_walk_upto(x, 0));
            assert(out@.take(o0.len() as int) =~= o0);
            assert forall|y: NodeId| #[trigger] s.contains(y) <==> (y == x || (self.has(y) && self.in_subtree(y, x) && y != x
                && self.kids@[x].index_of(self.top_below(y, x)) < 0)) by {
                if self.has(y) && self.in_subtree(y, x) && y != x {
                    self.lemma_top_below(y, x, None);
                }
            }
        }
        let ch = self.children(x);
        let mut i: usize = 0;
        while i < ch.len()
            invariant
                self.wf(),
                self.has(x),
                ch@ == self.kids@[x],
                ch@.no_duplicates(),
                forall|c: NodeId| #[trigger] ch@.contains(c) ==> self.live@.contains(c) && self.nd(c).parent == Some(x),
                self.anc@[x].len() < self.live@.len(),
                i <= ch@.len(),
                forall|y: NodeId| #[trigger] o0.contains(y) ==> !(self.has(y) && self.in_subtree(y, x)),
                self.pre_inv(x, ch@, o0, out@, i as int),
                out@ == o0 + seq![x] + self.pre_walk_upto(x, i as int),
            decreases ch@.len() - i,
        {
            let c = ch[i];
            let ghost before = out@;
            proof {
                assert(ch@[i as int] == c);
                assert(ch@.contains(c));
                self.lemma_unfold(None);
                self.lemma_anc_parent(c, None);
                self.lemma_pre_pre(x, ch@, o0, before, i as int);
            }
            self.collect_pre(c, out);
            proof {
                self.lemma_pre_step(x, ch@, o0, before, out@, i as int);
                assert(out@ =~= o0 + seq![x] + self.pre_walk_upto(x, i + 1));
            }
            i = i + 1;
        }
        proof {
            self.lemma_pre_last(x, ch@, o0, out@);
            assert(out@ =~= o0 + self.pre_walk(x));
        }
    }

    /// `id` and all its descendants in pre-order (paint order); empty for a dead id.
    pub fn descendants(&self, id: NodeId) -> (r: Vec<NodeId>)
        requires
            self.wf(),
        ensures
            self.has(id) ==> Self::pre_order_of(self, r@, id),
            self.has(id) ==> r@ == self.pre_walk(id),
            !self.has(id) ==> r@.len() == 0,
    {
        let mut out: Vec<NodeId> = Vec::new();
        if !self.contains(id) {
            return out;
        }
        self.collect_pre(id, &mut out);
        proof {
            assert(out@.skip(0) =~= out@);
            assert(out@ =~= self.pre_walk(id));
        }
        out
    }

    /// How deep `id` is drawn in a dump of `root`'s subtree: its distance from `root` (for
    /// `root` itself: the number of its ancestors).
    pub open spec fn dump_depth(&self, id: NodeId, root: NodeId) -> nat {
        if id == root {
            self.anc_of(root).len()
        } else {
            (self.anc_of(id).len() - self.anc_of(root).len()) as nat
        }
    }

    /// `n` times two spaces.
    pub open spec fn indent(n: nat) -> Seq<char>
        decreases n,
    {
        if n == 0 { Seq::empty() } else { Self::indent((n - 1) as nat) + seq![' ', ' '] }
    }

    /// The text of a rectangle in dumps: `[x0,y0 → x1,y1]`.
    pub open spec fn coords_text(r: Rect) -> Seq<char> {
        seq!['['] + signed_decimal(r.x0 as int) + seq![','] + signed_decimal(r.y0 as int)
            + seq![' ', '→', ' '] + signed_decimal(r.x1 as int) + seq![','] + signed_decimal(r.y1 as int)
            + seq![']']
    }

    /// The state and flags part of a dump line, with the line break.
    pub open spec fn flags_text(n: Node) -> Seq<char> {
        seq![' ', 's', 't', 'a', 't', 'e', '='] + flag_text(n.state.bits as u32, |i: int| state_flag_name(i))
            + seq![' ', 'f', 'l', 'a', 'g', 's', '='] + flag_text(n.flags.bits, |i: int| obj_flag_name(i))
            + seq!['\n']
    }

    /// The dump line of one node: class name, id, coordinates, state and flags.
    pub open spec fn dump_line(n: Node, id: NodeId, depth: nat) -> Seq<char> {
        Self::indent(depth) + n.class.name@ + seq![' '] + node_id_text(id) + seq![' ']
            + Self::coords_text(n.coords) + Self::flags_text(n)
    }

    /// The lines of the nodes `s` in a dump of `root`'s subtree.
    pub open spec fn dump_text(&self, s: Seq<NodeId>, root: NodeId) -> Seq<char>
        decreases s.len(),
    {
        if s.len() == 0 {
            Seq::empty()
        } else {
            self.dump_text(s.drop_last(), root) + Self::dump_line(self.nd(s.last()), s.last(), self.dump_depth(s.last(), root))
        }
    }

    fn dump_depth_exec(&self, id: NodeId, root: NodeId) -> (d: usize)
        requires
            self.wf(),
            self.has(id),
            self.has(root),
            self.in_subtree(id, root),
        ensures
            d == self.dump_depth(id, root),
    {
        let a = self.ancestors(id);
        let ar = self.ancestors(root);
        proof {
            if id != root {
                self.lemma_unfold(None);
                self.lemma_subtree_path(id, root, None);
            }
        }
        if id.slot == root.slot && id.gen == root.gen { ar.len() } else { a.len() - ar.len() }
    }

    fn push_dump_line(out: &mut String, n: Node, id: NodeId, depth: usize)
        ensures
            final(out)@ == old(out)@ + Self::dump_line(n, id, depth as nat),
    {
        let ghost o = out@;
        let mut k: usize = 0;
        while k < depth
            invariant
                k <= depth,
                out@ == o + Self::indent(k as nat),
            decreases depth - k,
        {
            push_str(out, "  ");
            proof {
                reveal_strlit("  ");
                assert(out@ =~= o + Self::indent((k + 1) as nat));
            }
            k = k + 1;
        }
        let ghost o1 = out@;
        push_str(out, n.class.name);
        push_char(out, ' ');
        push_node_id(out, id);
        push_char(out, ' ');
        let ghost o2 = out@;
        proof {
            assert(o2 =~= o1 + n.class.name@ + seq![' '] + node_id_text(id) + seq![' ']);
        }
        Self::push_coords(out, n.coords);
        Self::push_flags(out, n);
        proof {
            assert(out@ =~= o + Self::dump_line(n, id, depth as nat));
        }
    }

    fn push_coords(out: &mut String, r: Rect)
        ensures
            final(out)@ == old(out)@ + Self::coords_text(r),
    {
        let ghost o = out@;
        push_char(out, '[');
        push_signed(out, r.x0 as i64);
        push_char(out, ',');
        push_signed(out, r.y0 as i64);
        push_char(out, ' ');
        push_char(out, '→');
        push_char(out, ' ');
        push_signed(out, r.x1 as i64);
        push_char(out, ',');
        push_signed(out, r.y1 as i64);
        push_char(out, ']');
        proof {
            assert(out@ =~= o + Self::coords_text(r));
        }
    }

    fn push_flags(out: &mut String, n: Node)
        ensures
            final(out)@ == old(out)@ + Self::flags_text(n),
    {
        let ghost o = out@;
        push_str(out, " state=");
        push_state_names(out, n.state);
        push_str(out, " flags=");
        push_obj_flag_names(out, n.flags);
        push_char(out, '\n');
        proof {
            reveal_strlit(" state=");
            reveal_strlit(" flags=");
            assert(out@ =~= o + Self::flags_text(n));
        }
    }

    /// An indented dump of `root`'s subtree, one node per line in pre-order:
    /// `obj n3g1 [x0,y0 → x1,y1] state=PRESSED flags=CLICKABLE|…`.
    pub fn dump(&self, root: NodeId) -> (r: String)
        requires
            self.wf(),
        ensures
            !self.has(root) ==> r@.len() == 0,
            self.has(root) ==> r@ == self.dump_text(self.pre_walk(root), root),
    {
        let mut out = String::new();
        let order = self.descendants(root);
        if order.len() == 0 {
            proof {
                if self.has(root) {
                    assert(order@.contains(root));
                }
            }
            return out;
        }
        let mut k: usize = 0;
        while k < order.len()
            invariant
                self.wf(),
                self.has(root),
                Self::pre_order_of(self, order@, root),
                k <= order@.len(),
                out@ == self.dump_text(order@.take(k as int), root),
            decreases order@.len() - k,
        {
            let id = order[k];
            proof {
                assert(order@.contains(id));
                assert(order@.take(k + 1).drop_last() =~= order@.take(k as int));
            }
            let d = self.dump_depth_exec(id, root);
            let n = self.node(id).unwrap();
            Self::push_dump_line(&mut out, n, id, d);
            k = k + 1;
        }
        proof {
            assert(order@.take(order@.len() as int) =~= order@);
        }
        out
    }


    // ---- The invariant checker -------------------------------------------------------------

    /// Whether `id` names a node held by the arena (read from the slots alone).
    pub closed spec fn live_slot(&self, id: NodeId) -> bool {
        self.slot_holds(id)
    }

    /// The node in `id`'s slot, as the slots hold it.
    pub closed spec fn slot_node(&self, id: NodeId) -> Node {
        self.slots@[id.slot as int].node.unwrap()
    }

    /// The roots as stored.
    pub closed spec fn stored_roots(&self) -> Seq<NodeId> {
        self.roots@
    }

    /// `s` is the child list of `x` as its links describe it: `child_count` long, starting at
    /// `first_child` and ending at `last_child`, every entry live, pointing back at `x`, with
    /// symmetric `prev`/`next` links.
    pub open spec fn walk_ok(&self, x: NodeId, s: Seq<NodeId>) -> bool {
        let n = self.slot_node(x);
        &&& s.len() == n.child_count as int
        &&& n.first_child == first_in(s)
        &&& n.last_child == last_in(s)
        &&& forall|i: int| 0 <= i < s.len() ==> self.live_slot(#[trigger] s[i])
            && self.slot_node(s[i]).parent == Some(x) && self.slot_node(s[i]).prev == prev_in(s, i)
            && self.slot_node(s[i]).next == next_in(s, i)
    }

    /// In a well-formed tree the slots show the model: a slot holds a node exactly for the
    /// live ids, with the node of the model, and the stored roots are the roots.
    pub proof fn lemma_slots_show(&self)
        requires
            self.wf(),
        ensures
            forall|x: NodeId| #[trigger] self.live_slot(x) <==> self.has(x),
            forall|x: NodeId| self.has(x) ==> #[trigger] self.slot_node(x) == self.nd(x),
            self.stored_roots() == self.roots_seq(),
    {
        self.lemma_unfold(None);
    }

    /// The links of a live node of a well-formed tree describe its children: the first and
    /// last child, their number, and each child's parent and `prev` / `next` links.
    pub proof fn lemma_node_links(&self, x: NodeId)
        requires
            self.wf(),
            self.has(x),
        ensures
            self.nd(x).first_child == first_in(self.kids_of(x)),
            self.nd(x).last_child == last_in(self.kids_of(x)),
            self.nd(x).child_count == self.kids_of(x).len(),
            forall|i: int| 0 <= i < self.kids_of(x).len() ==> self.has(#[trigger] self.kids_of(x)[i])
                && self.nd(self.kids_of(x)[i]).parent == Some(x)
                && self.nd(self.kids_of(x)[i]).prev == prev_in(self.kids_of(x), i)
                && self.nd(self.kids_of(x)[i]).next == next_in(self.kids_of(x), i),
            self.nd(x).parent is None ==> self.nd(x).prev is None && self.nd(x).next is None,
    {
        self.lemma_unfold(None);
        assert(self.node_links_ok(x));
        assert(self.parent_ok(x, None));
        assert forall|i: int| 0 <= i < self.kids_of(x).len() implies self.has(#[trigger] self.kids_of(x)[i])
            && self.nd(self.kids_of(x)[i]).parent == Some(x)
            && self.nd(self.kids_of(x)[i]).prev == prev_in(self.kids_of(x), i)
            && self.nd(self.kids_of(x)[i]).next == next_in(self.kids_of(x), i) by {
            assert(self.child_ok(x, self.kids@[x], i));
        }
    }

    /// The number of slots of the arena (live or free).
    pub closed spec fn slot_count(&self) -> nat {
        self.slots@.len()
    }

    /// `w` starts the child list of `x` as the links describe it: from `first_child` along
    /// `next`, each entry a live node with `x` as its parent and `prev` pointing at the entry
    /// before it.
    pub open spec fn walk_prefix(&self, x: NodeId, w: Seq<NodeId>) -> bool {
        &&& w.len() > 0 ==> self.slot_node(x).first_child == Some(w[0])
        &&& forall|i: int| 0 <= i < w.len() ==> self.live_slot(#[trigger] w[i])
            && self.slot_node(w[i]).parent == Some(x) && self.slot_node(w[i]).prev == prev_in(w, i)
        &&& forall|i: int| 0 <= i < w.len() - 1 ==> #[trigger] self.slot_node(w[i]).next == Some(w[i + 1])
    }

    /// The link that follows the start `w` of `x`'s child list.
    pub open spec fn after_walk(&self, x: NodeId, w: Seq<NodeId>) -> Option<NodeId> {
        if w.len() == 0 { self.slot_node(x).first_child } else { self.slot_node(w.last()).next }
    }

    /// `c` follows the parent links up from `x`: `c[0]` is `x`'s parent and each entry but
    /// the last is a live node whose parent is the next entry.
    pub open spec fn parent_path(&self, x: NodeId, c: Seq<NodeId>) -> bool {
        &&& c.len() > 0
        &&& self.slot_node(x).parent == Some(c[0])
        &&& forall|i: int| 0 <= i < c.len() - 1 ==> self.live_slot(#[trigger] c[i]) && self.slot_node(c[i]).parent == Some(c[i + 1])
    }

    /// The violation an error of [`Tree::check_invariants`] reports is real, at the node it
    /// names: a parent chain through live nodes at least as long as there are slots (so it
    /// loops) or reaching a node that is not alive; a parentless node that is no root, or a
    /// root with a parent; a stored root that is not alive; a child list longer than there
    /// are slots, reaching a node that is not alive, reaching a node whose parent link or
    /// `prev` link does not point back, or ending elsewhere than at `last_child` or after
    /// another number of children than `child_count`. A count mismatch is reported only
    /// when all of these checks passed, and names the first root.
    pub open spec fn names_violation(&self, e: InvariantError) -> bool {
        ||| e.what == "cycle in parent chain" && self.live_slot(e.node) && exists|c: Seq<NodeId>|
            #[trigger] self.parent_path(e.node, c) && self.live_slot(c.last()) && c.len() >= self.slot_count()
                && e.other == self.slot_node(c.last()).parent
        ||| e.what == "parent is not alive" && self.live_slot(e.node) && exists|c: Seq<NodeId>|
            #[trigger] self.parent_path(e.node, c) && !self.live_slot(c.last()) && e.other == Some(c.last())
        ||| e.what == "parentless node is not a root" && self.live_slot(e.node) && self.slot_node(e.node).parent is None
            && !self.stored_roots().contains(e.node) && e.other is None
        ||| e.what == "root has a parent" && self.live_slot(e.node) && self.stored_roots().contains(e.node)
            && self.slot_node(e.node).parent is Some && e.other == self.slot_node(e.node).parent
        ||| e.what == "root is not alive" && self.stored_roots().contains(e.node) && !self.live_slot(e.node) && e.other is None
        ||| e.what == "cycle in child list" && self.live_slot(e.node) && exists|w: Seq<NodeId>|
            #[trigger] self.walk_prefix(e.node, w) && w.len() >= self.slot_count() && e.other == self.after_walk(e.node, w)
            && e.other is Some
        ||| e.what == "child is not alive" && self.live_slot(e.node) && exists|w: Seq<NodeId>|
            #[trigger] self.walk_prefix(e.node, w) && e.other == self.after_walk(e.node, w)
            && e.other is Some && !self.live_slot(e.other.unwrap())
        ||| e.what == "child's parent link does not point back" && self.live_slot(e.node) && e.other is Some
            && self.live_slot(e.other.unwrap()) && exists|w: Seq<NodeId>|
            #[trigger] self.walk_prefix(e.other.unwrap(), w) && self.after_walk(e.other.unwrap(), w) == Some(e.node)
            && self.slot_node(e.node).parent != e.other
        ||| e.what == "prev link is not symmetric" && self.live_slot(e.node) && exists|x: NodeId, w: Seq<NodeId>|
            #[trigger] self.walk_prefix(x, w) && self.live_slot(x) && self.after_walk(x, w) == Some(e.node)
            && self.slot_node(e.node).parent == Some(x) && e.other == last_in(w) && self.slot_node(e.node).prev != e.other
        ||| e.what == "last_child does not end the child list" && self.live_slot(e.node) && exists|w: Seq<NodeId>|
            #[trigger] self.walk_prefix(e.node, w) && self.after_walk(e.node, w) is None
            && self.slot_node(e.node).last_child != last_in(w) && e.other == self.slot_node(e.node).last_child
        ||| e.what == "child_count does not match the child list" && self.live_slot(e.node) && e.other is None
            && exists|w: Seq<NodeId>| #[trigger] self.walk_prefix(e.node, w) && self.after_walk(e.node, w) is None
            && w.len() != self.slot_node(e.node).child_count as int
        ||| e.what == "node count differs from linked nodes" && self.links_checked() && e.other is None
            && (self.stored_roots().len() > 0 ==> e.node == self.stored_roots()[0])
    }

    /// What [`Tree::check_invariants`] establishes when it accepts the tree: every node is a
    /// root exactly when it has no parent, a parent is alive, the child list of every node is
    /// consistent, and every root is alive without a parent.
    pub open spec fn links_checked(&self) -> bool {
        &&& forall|x: NodeId| #[trigger] self.live_slot(x) ==> {
            &&& (self.slot_node(x).parent is None <==> self.stored_roots().contains(x))
            &&& (self.slot_node(x).parent is Some ==> self.live_slot(self.slot_node(x).parent.unwrap()))
            &&& exists|s: Seq<NodeId>| self.walk_ok(x, s)
        }
        &&& forall|i: int| 0 <= i < self.stored_roots().len() ==> self.live_slot(#[trigger] self.stored_roots()[i])
            && self.slot_node(self.stored_roots()[i]).parent is None
    }

    fn live_exec(&self, id: NodeId) -> (b: bool)
        ensures
            b == self.slot_holds(id),
    {
        let i = id.slot as usize;
        if i < self.slots.len() {
            let s = self.slots[i];
            s.gen == id.gen && s.node.is_some()
        } else {
            false
        }
    }

    fn roots_contains(&self, id: NodeId) -> (b: bool)
        ensures
            b == self.roots@.contains(id),
    {
        let mut k: usize = 0;
        while k < self.roots.len()
            invariant
                k <= self.roots@.len(),
                forall|j: int| 0 <= j < k ==> self.roots@[j] != id,
            decreases self.roots@.len() - k,
        {
            let r = self.roots[k];
            if r.slot == id.slot && r.gen == id.gen {
                return true;
            }
            k = k + 1;
        }
        false
    }

    /// The parent chain of `id` reaches a root within `limit` steps through live nodes.
    fn check_chain(&self, id: NodeId, limit: usize) -> (r: Result<(), InvariantError>)
        requires
            self.slot_holds(id),
            limit >= self.slots@.len(),
        ensures
            r is Ok ==> (self.slot_node(id).parent is Some ==> self.slot_holds(self.slot_node(id).parent.unwrap())),
            self.wf() ==> r is Ok,
            r matches Err(e) ==> e.node == id && self.names_violation(e),
    {
        let ghost good = self.wf();
        proof {
            if good {
                self.lemma_unfold(None);
                assert(self.live@.contains(id));
                assert(self.anc_ok(id));
                self.lemma_anc_len(id, None);
            }
        }
        let ghost a = self.anc@[id];
        let ghost mut c: Seq<NodeId> = Seq::empty();
        let mut steps: usize = 0;
        let mut cur = self.get(id).parent;
        while cur.is_some()
            invariant
                self.slot_holds(id),
                limit >= self.slots@.len(),
                good == self.wf(),
                a == self.anc@[id],
                steps <= limit,
                steps == c.len(),
                c.len() > 0 ==> self.parent_path(id, c) && self.live_slot(c.last()) && cur == self.slot_node(c.last()).parent,
                c.len() == 0 ==> cur == self.slot_node(id).parent,
                good ==> self.arena_wf() && self.live@.contains(id) && steps <= a.len() && a.len() < self.live@.len()
                    && self.live@.len() <= self.slots@.len()
                    && cur == (if steps < a.len() { Some(a[steps as int]) } else { None::<NodeId> }),
                steps > 0 || cur == self.slot_node(id).parent,
                steps > 0 ==> self.slot_node(id).parent is Some && self.slot_holds(self.slot_node(id).parent.unwrap()),
            decreases limit - steps,
        {
            let p = cur.unwrap();
            if steps >= limit {
                proof {
                    if good {
                        assert(false);
                    }
                    assert(self.parent_path(id, c));
                    assert(self.names_violation(InvariantError { node: id, what: "cycle in parent chain", other: Some(p) }));
                }
                return Err(InvariantError { node: id, what: "cycle in parent chain", other: Some(p) });
            }
            let ghost c1 = c.push(p);
            proof {
                assert forall|i: int| 0 <= i < c1.len() - 1 implies self.live_slot(#[trigger] c1[i]) && self.slot_node(c1[i]).parent == Some(c1[i + 1]) by {
                    if i < c.len() - 1 {
                        assert(c1[i] == c[i] && c1[i + 1] == c[i + 1]);
                    } else {
                        assert(c1[i] == c.last());
                    }
                }
                assert(self.parent_path(id, c1));
            }
            steps = steps + 1;
            if !self.live_exec(p) {
                proof {
                    if good {
                        self.lemma_unfold(None);
                        assert(self.anc_ok(id));
                        assert(self.live@.contains(a[steps - 1]));
                    }
                    assert(self.names_violation(InvariantError { node: id, what: "parent is not alive", other: Some(p) }));
                }
                return Err(InvariantError { node: id, what: "parent is not alive", other: Some(p) });
            }
            proof {
                if good {
                    self.lemma_unfold(None);
                    assert(self.anc_ok(id));
                    let k = (steps - 1) as int;
                    assert(self.live@.contains(a[k]));
                    assert(self.anc@[a[k]] == a.skip(k + 1));
                    assert(self.anc_ok(a[k]));
                }
                c = c1;
            }
            cur = self.get(p).parent;
        }
        Ok(())
    }

    /// Walks the child list of `id` (at most `limit` children) and checks it; returns its
    /// length.
    #[verifier::spinoff_prover]
    #[verifier::rlimit(30)]
    fn check_children(&self, id: NodeId, limit: usize) -> (r: Result<usize, InvariantError>)
        requires
            self.slot_holds(id),
            limit >= self.slots@.len(),
        ensures
            match r {
                Ok(n) => exists|s: Seq<NodeId>| self.walk_ok(id, s) && s.len() == n,
                Err(_) => true,
            },
            self.wf() ==> r == Ok::<usize, InvariantError>(self.kids@[id].len() as usize),
            r matches Err(e) ==> self.names_violation(e),
    {
        let ghost good = self.wf();
        proof {
            if good {
                self.lemma_unfold(None);
                assert(self.live@.contains(id));
                assert(self.node_links_ok(id));
                self.lemma_lists(id);
                let ch = self.kids@[id];
                assert forall|i: int| 0 <= i < ch.len() implies self.live@.contains(#[trigger] ch[i]) by {
                    assert(self.child_ok(id, ch, i));
                }
                self.lemma_distinct_live_len(ch);
            }
        }
        let ghost ch = self.kids@[id];
        let n = self.get(id);
        let mut count: usize = 0;
        let mut prev: Option<NodeId> = None;
        let mut cur = n.first_child;
        let ghost mut walk: Seq<NodeId> = Seq::empty();
        while cur.is_some()
            invariant
                self.slot_holds(id),
                n == self.slot_node(id),
                limit >= self.slots@.len(),
                good == self.wf(),
                ch == self.kids@[id],
                count == walk.len(),
                count <= limit,
                walk.len() == 0 ==> cur == n.first_child && prev is None,
                walk.len() > 0 ==> prev == Some(walk.last()) && cur == self.slot_node(walk.last()).next
                    && n.first_child == Some(walk[0]),
                forall|i: int| 0 <= i < walk.len() ==> self.live_slot(#[trigger] walk[i])
                    && self.slot_node(walk[i]).parent == Some(id) && self.slot_node(walk[i]).prev == prev_in(walk, i),
                forall|i: int| 0 <= i < walk.len() - 1 ==> #[trigger] self.slot_node(walk[i]).next == Some(walk[i + 1]),
                good ==> self.arena_wf() && self.live@.contains(id) && self.node_links_ok(id) && ch.len() <= self.live@.len()
                    && self.live@.len() <= self.slots@.len() && walk.len() <= ch.len() && walk == ch.take(walk.len() as int)
                    && cur == (if walk.len() < ch.len() { Some(ch[walk.len() as int]) } else { None::<NodeId> }),
            decreases limit - count,
        {
            let c = cur.unwrap();
            if count >= limit {
                proof {
                    if good {
                        assert(false);
                    }
                }
                proof {
                    assert(self.walk_prefix(id, walk));
                    assert(self.names_violation(InvariantError { node: id, what: "cycle in child list", other: Some(c) }));
                }
                return Err(InvariantError { node: id, what: "cycle in child list", other: Some(c) });
            }
            if !self.live_exec(c) {
                proof {
                    if good {
                        assert(self.child_ok(id, ch, walk.len() as int));
                    }
                }
                proof {
                    assert(self.walk_prefix(id, walk));
                    assert(self.names_violation(InvariantError { node: id, what: "child is not alive", other: Some(c) }));
                }
                return Err(InvariantError { node: id, what: "child is not alive", other: Some(c) });
            }
            let cn = self.get(c);
            let back = match cn.parent {
                Some(q) => q.slot == id.slot && q.gen == id.gen,
                None => false,
            };
            proof {
                if good {
                    assert(self.child_ok(id, ch, walk.len() as int));
                }
            }
            if !back {
                proof {
                    assert(self.walk_prefix(id, walk));
                    assert(self.names_violation(InvariantError { node: c, what: "child's parent link does not point back", other: Some(id) }));
                }
                return Err(InvariantError { node: c, what: "child's parent link does not point back", other: Some(id) });
            }
            let sym = match (cn.prev, prev) {
                (Some(a), Some(b)) => a.slot == b.slot && a.gen == b.gen,
                (None, None) => true,
                _ => false,
            };
            if !sym {
                proof {
                    if good {
                        let k = walk.len() as int;
                        if k > 0 {
                            assert(ch[k - 1] == walk[k - 1]);
                        }
                    }
                }
                proof {
                    assert(self.walk_prefix(id, walk));
                    assert(prev == last_in(walk));
                    assert(self.names_violation(InvariantError { node: c, what: "prev link is not symmetric", other: prev }));
                }
                return Err(InvariantError { node: c, what: "prev link is not symmetric", other: prev });
            }
            proof {
                let k = walk.len() as int;
                walk = walk.push(c);
                if good {
                    assert(walk =~= ch.take(k + 1));
                }
            }
            count = count + 1;
            prev = Some(c);
            cur = cn.next;
        }
        let same_last = match (prev, n.last_child) {
            (Some(a), Some(b)) => a.slot == b.slot && a.gen == b.gen,
            (None, None) => true,
            _ => false,
        };
        proof {
            if good {
                assert(walk =~= ch);
            }
        }
        proof {
            assert(self.walk_prefix(id, walk));
            assert(prev == last_in(walk));
        }
        if !same_last {
            proof {
                assert(self.names_violation(InvariantError { node: id, what: "last_child does not end the child list", other: n.last_child }));
            }
            return Err(InvariantError { node: id, what: "last_child does not end the child list", other: n.last_child });
        }
        if count != n.child_count as usize {
            proof {
                assert(self.names_violation(InvariantError { node: id, what: "child_count does not match the child list", other: None }));
            }
            return Err(InvariantError { node: id, what: "child_count does not match the child list", other: None });
        }
        proof {
            assert forall|i: int| 0 <= i < walk.len() implies self.live_slot(#[trigger] walk[i])
                && self.slot_node(walk[i]).parent == Some(id) && self.slot_node(walk[i]).prev == prev_in(walk, i)
                && self.slot_node(walk[i]).next == next_in(walk, i) by {
                if i < walk.len() - 1 {
                    assert(self.slot_node(walk[i]).next == Some(walk[i + 1]));
                }
            }
            assert(self.walk_ok(id, walk));
        }
        Ok(count)
    }


    /// The local facts [`Tree::links_checked`] states of one live node.
    pub open spec fn node_checked(&self, x: NodeId) -> bool {
        &&& (self.slot_node(x).parent is None <==> self.stored_roots().contains(x))
        &&& (self.slot_node(x).parent is Some ==> self.live_slot(self.slot_node(x).parent.unwrap()))
        &&& exists|s: Seq<NodeId>| self.walk_ok(x, s)
    }

    /// The live nodes whose parent lies in a slot below `s`.
    spec fn covered_below(&self, s: int) -> Set<NodeId> {
        Set::new(|y: NodeId| self.live@.contains(y) && self.nd(y).parent is Some && (self.nd(y).parent.unwrap().slot as int) < s)
    }

    proof fn lemma_cover_step(&self, s: int)
        requires
            self.wf(),
            0 <= s < self.slots@.len(),
        ensures
            self.slots@[s].node is None ==> self.covered_below(s + 1) == self.covered_below(s),
            self.slots@[s].node is Some ==> {
                let id = NodeId { slot: s as u16, gen: self.slots@[s].gen };
                &&& self.live@.contains(id)
                &&& self.covered_below(s + 1) == self.covered_below(s).union(self.kids@[id].to_set())
                &&& self.covered_below(s).disjoint(self.kids@[id].to_set())
                &&& self.kids@[id].to_set().len() == self.kids@[id].len()
            },
            self.covered_below(s).finite(),
    {
        self.lemma_unfold(None);
        vstd::set_lib::lemma_len_subset(self.covered_below(s), self.live@);
        assert(self.covered_below(s).subset_of(self.live@));
        if self.slots@[s].node is None {
            assert forall|y: NodeId| #[trigger] self.covered_below(s + 1).contains(y) implies self.covered_below(s).contains(y) by {
                let p = self.nd(y).parent.unwrap();
                assert(self.parent_ok(y, None));
                assert(self.slot_holds(p));
            }
            assert(self.covered_below(s + 1) =~= self.covered_below(s));
        } else {
            let id = NodeId { slot: s as u16, gen: self.slots@[s].gen };
            assert(self.slot_holds(id));
            assert(self.live@.contains(id));
            self.lemma_lists(id);
            self.lemma_not_own_child(id, None);
            let k = self.kids@[id];
            assert forall|y: NodeId| #[trigger] self.covered_below(s + 1).contains(y) implies
                self.covered_below(s).union(k.to_set()).contains(y) by {
                let p = self.nd(y).parent.unwrap();
                if p.slot as int == s {
                    assert(self.parent_ok(y, None));
                    assert(self.slot_holds(p));
                    assert(p == id);
                    assert(k.to_set().contains(y));
                }
            }
            assert forall|y: NodeId| #[trigger] self.covered_below(s).union(k.to_set()).contains(y) implies
                self.covered_below(s + 1).contains(y) by {
                if k.to_set().contains(y) {
                    assert(k.contains(y));
                }
            }
            assert(self.covered_below(s + 1) =~= self.covered_below(s).union(k.to_set()));
            assert forall|y: NodeId| self.covered_below(s).contains(y) implies !k.to_set().contains(y) by {
                if k.to_set().contains(y) {
                    assert(k.contains(y));
                }
            }
            k.unique_seq_to_set();
        }
    }

    proof fn lemma_cover_all(&self)
        requires
            self.wf(),
        ensures
            self.covered_below(self.slots@.len() as int).disjoint(self.roots@.to_set()),
            self.covered_below(self.slots@.len() as int).union(self.roots@.to_set()) == self.live@,
            self.roots@.to_set().len() == self.roots@.len(),
            self.count == self.live@.len(),
    {
        self.lemma_unfold(None);
        let c = self.covered_below(self.slots@.len() as int);
        let r = self.roots@.to_set();
        assert(self.roots_ok(None));
        assert forall|y: NodeId| c.contains(y) implies !r.contains(y) by {
            if r.contains(y) {
                let k = self.roots@.index_of(y);
                assert(self.roots@[k] == y);
            }
        }
        assert forall|y: NodeId| #[trigger] c.union(r).contains(y) <==> self.live@.contains(y) by {
            if self.live@.contains(y) {
                assert(self.parent_ok(y, None));
                assert(self.slot_holds(y));
                if self.nd(y).parent is Some {
                    let p = self.nd(y).parent.unwrap();
                    assert(self.slot_holds(p));
                }
            }
            if r.contains(y) {
                let k = self.roots@.index_of(y);
                assert(self.roots@[k] == y);
            }
        }
        assert(c.union(r) =~= self.live@);
        self.roots@.unique_seq_to_set();
    }

    /// Checks every structural invariant: parent/child links are consistent, `child_count`
    /// matches, `prev`/`next` are symmetric, there are no cycles, roots have no parent and every
    /// parentless node is a root, and the node count matches the linked nodes.
    pub fn check_invariants(&self) -> (r: Result<(), InvariantError>)
        ensures
            self.wf() ==> r is Ok,
            r is Ok ==> self.links_checked(),
            r matches Err(e) ==> self.names_violation(e),
    {
        let ghost good = self.wf();
        let len = self.slots.len();
        let n = if len <= 65536 { len } else { 65536 };
        let limit = if len < usize::MAX { len + 1 } else { len };
        let mut linked: u64 = 0;
        let ghost mut covered: Set<NodeId> = Set::empty();
        proof {
            if good {
                self.lemma_unfold(None);
                assert(self.covered_below(0) =~= Set::<NodeId>::empty());
            }
        }
        let mut s: usize = 0;
        while s < n
            invariant
                len == self.slots@.len(),
                n == (if len <= 65536 { len } else { 65536 }),
                limit >= len,
                s <= n,
                good == self.wf(),
                forall|x: NodeId| #[trigger] self.live_slot(x) && (x.slot as int) < s ==> self.node_checked(x),
                good ==> self.arena_wf() && covered == self.covered_below(s as int) && covered.finite() && linked == covered.len()
                    && covered.len() <= self.live@.len() && self.live@.len() <= 65535,
            decreases n - s,
        {
            let sl = self.slots[s];
            proof {
                if good {
                    self.lemma_cover_step(s as int);
                }
            }
            match sl.node {
                None => {
                    proof {
                        assert forall|x: NodeId| #[trigger] self.live_slot(x) && (x.slot as int) < s + 1 implies self.node_checked(x) by {
                            if x.slot as int == s {
                                assert(self.slot_holds(x));
                            }
                        }
                    }
                },
                Some(node) => {
                    let id = NodeId { slot: s as u16, gen: sl.gen };
                    assert(self.slot_holds(id));
                    match self.check_chain(id, limit) {
                        Ok(()) => {},
                        Err(e) => { return Err(e); },
                    }
                    let in_roots = self.roots_contains(id);
                    proof {
                        if good {
                            self.lemma_unfold(None);
                            assert(self.parent_ok(id, None));
                            if self.nd(id).parent is Some && self.roots@.contains(id) {
                                let k = self.roots@.index_of(id);
                                assert(self.roots_ok(None));
                                assert(self.roots@[k] == id);
                            }
                        }
                    }
                    match node.parent {
                        None => {
                            if !in_roots {
                                proof {
                                    assert(self.names_violation(InvariantError { node: id, what: "parentless node is not a root", other: None }));
                                }
                                return Err(InvariantError { node: id, what: "parentless node is not a root", other: None });
                            }
                        },
                        Some(p) => {
                            if in_roots {
                                proof {
                                    assert(self.names_violation(InvariantError { node: id, what: "root has a parent", other: Some(p) }));
                                }
                                return Err(InvariantError { node: id, what: "root has a parent", other: Some(p) });
                            }
                        },
                    }
                    let count = match self.check_children(id, limit) {
                        Ok(c) => c,
                        Err(e) => { return Err(e); },
                    };
                    proof {
                        assert forall|x: NodeId| #[trigger] self.live_slot(x) && (x.slot as int) < s + 1 implies self.node_checked(x) by {
                            if x.slot as int == s {
                                assert(self.slot_holds(x));
                                assert(x == id);
                            }
                        }
                    }
                    linked = if linked <= u64::MAX - count as u64 { linked + count as u64 } else { u64::MAX };
                    proof {
                        if good {
                            covered = covered.union(self.kids@[id].to_set());
                            vstd::set_lib::lemma_set_disjoint_lens(self.covered_below(s as int), self.kids@[id].to_set());
                            vstd::set_lib::lemma_len_subset(self.covered_below(s + 1), self.live@);
                            assert(self.covered_below(s + 1).subset_of(self.live@)) by {
                                self.lemma_unfold(None);
                            }
                        }
                    }
                },
            }
            s = s + 1;
        }
        let mut k: usize = 0;
        while k < self.roots.len()
            invariant
                k <= self.roots@.len(),
                good == self.wf(),
                forall|j: int| 0 <= j < k ==> self.live_slot(#[trigger] self.roots@[j]) && self.slot_node(self.roots@[j]).parent is None,
            decreases self.roots@.len() - k,
        {
            let r = self.roots[k];
            proof {
                if good {
                    self.lemma_unfold(None);
                    assert(self.roots_ok(None));
                    assert(self.live@.contains(self.roots@[k as int]));
                }
            }
            if !self.live_exec(r) {
                proof {
                    assert(self.roots@[k as int] == r);
                    assert(self.names_violation(InvariantError { node: r, what: "root is not alive", other: None }));
                }
                return Err(InvariantError { node: r, what: "root is not alive", other: None });
            }
            let rn = self.get(r);
            if rn.parent.is_some() {
                proof {
                    assert(self.roots@[k as int] == r);
                    assert(self.names_violation(InvariantError { node: r, what: "root has a parent", other: rn.parent }));
                }
                return Err(InvariantError { node: r, what: "root has a parent", other: rn.parent });
            }
            k = k + 1;
        }
        proof {
            if good {
                self.lemma_unfold(None);
                self.lemma_cover_all();
                vstd::set_lib::lemma_set_disjoint_lens(self.covered_below(n as int), self.roots@.to_set());
            }
            assert forall|x: NodeId| #[trigger] self.live_slot(x) implies self.node_checked(x) by {
                assert((x.slot as int) < n);
            }
        }
        let total_ok = linked <= u64::MAX - self.roots.len() as u64 && linked + self.roots.len() as u64 == self.count as u64;
        if !total_ok {
            let first = if self.roots.len() > 0 { self.roots[0] } else { NodeId { slot: 0, gen: 0 } };
            proof {
                assert(self.links_checked());
                assert(self.names_violation(InvariantError { node: first, what: "node count differs from linked nodes", other: None }));
            }
            return Err(InvariantError { node: first, what: "node count differs from linked nodes", other: None });
        }
        Ok(())
    }

    /// Replaces the node `id` as stored, links included, without any check (for testing the
    /// invariant checker; the tree is no longer known to be well formed). Returns whether `id`
    /// names a live node.
    pub fn replace_node(&mut self, id: NodeId, n: Node) -> (r: bool)
        ensures
            final(self).gens_kept(old(self)),
            r == old(self).live_slot(id),
            r ==> final(self).live_slot(id) && final(self).slot_node(id) == n,
            r ==> forall|x: NodeId| old(self).live_slot(x) && x != id ==> #[trigger] final(self).live_slot(x)
                && final(self).slot_node(x) == old(self).slot_node(x),
            forall|x: NodeId| #[trigger] final(self).live_slot(x) <==> old(self).live_slot(x),
            !r ==> *final(self) == *old(self),
            final(self).stored_roots() == old(self).stored_roots(),
    {
        if !self.live_exec(id) {
            return false;
        }
        self.put(id, n);
        proof {
            assert forall|x: NodeId| old(self).live_slot(x) && x != id implies #[trigger] self.live_slot(x)
                && self.slot_node(x) == old(self).slot_node(x) by {
                if x.slot == id.slot {
                    assert(old(self).slot_holds(x));
                }
            }
        }
        true
    }

}

} // verus!
