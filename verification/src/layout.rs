//! Layout marks (LVGL `lv_obj_mark_layout_as_dirty`): which nodes a change of `id` marks for
//! the next layout pass, and the node that lays out a wrapper's children.
use vstd::prelude::*;
use crate::flags::{LayoutDirty, LAYOUT_CHILDREN, LAYOUT_DESCENDANTS, LAYOUT_PASSTHROUGH, LAYOUT_SELF};
use crate::geom::{imax, imin, meet, Rect};
use crate::ids::NodeId;
use crate::tree::{Node, Tree};

verus! {

/// Whether `n` is a `LAYOUT_PASSTHROUGH` wrapper (its children are laid out by its parent).
pub open spec fn passes_layout(n: Node) -> bool {
    n.flags.bits & LAYOUT_PASSTHROUGH == LAYOUT_PASSTHROUGH
}

/// `w` with `SELF` added when level `k` of `chain` needs it: a node whose children changed
/// is laid out with its parent when it is a wrapper or content-sized (`cs`; a root is never
/// content-sized).
pub open spec fn raise_w(t: &Tree, chain: Seq<NodeId>, cs: Seq<bool>, k: int, w: u8) -> u8 {
    if w & LAYOUT_CHILDREN == LAYOUT_CHILDREN && w & LAYOUT_SELF != LAYOUT_SELF
        && (passes_layout(t.nd(chain[k])) || (cs[k] && k + 1 < chain.len())) {
        w | LAYOUT_SELF
    } else {
        w
    }
}

/// The marks level `k` of `chain` receives: `what` on the node itself, `CHILDREN` on each
/// ancestor reached, raised by [`raise_w`].
pub open spec fn level_w(t: &Tree, chain: Seq<NodeId>, cs: Seq<bool>, what: u8, k: int) -> u8 {
    raise_w(t, chain, cs, k, if k == 0 { what } else { LAYOUT_CHILDREN })
}

/// The topmost level reached from level `k`: marking goes up while a level gets `SELF`.
pub open spec fn top_from(t: &Tree, chain: Seq<NodeId>, cs: Seq<bool>, what: u8, k: int) -> int
    decreases chain.len() - k,
{
    if k + 1 >= chain.len() || level_w(t, chain, cs, what, k) & LAYOUT_SELF != LAYOUT_SELF {
        k
    } else {
        top_from(t, chain, cs, what, k + 1)
    }
}

/// The first level from `j` on that already knows of a dirty descendant (the chain's length
/// when none does).
pub open spec fn desc_stop(t: &Tree, chain: Seq<NodeId>, j: int) -> int
    decreases chain.len() - j,
{
    if j >= chain.len() || t.nd(chain[j]).layout_dirty.bits & LAYOUT_DESCENDANTS == LAYOUT_DESCENDANTS {
        j
    } else {
        desc_stop(t, chain, j + 1)
    }
}

/// The layout marks of level `j` after marking: the level's marks up to the top, then
/// `DESCENDANTS` on the ancestors above it up to the first one that already had it.
pub open spec fn marked_bits(t: &Tree, chain: Seq<NodeId>, cs: Seq<bool>, what: u8, j: int) -> u8 {
    let top = top_from(t, chain, cs, what, 0);
    let b = t.nd(chain[j]).layout_dirty.bits;
    if j <= top {
        b | level_w(t, chain, cs, what, j)
    } else if j < desc_stop(t, chain, top + 1) {
        b | LAYOUT_DESCENDANTS
    } else {
        b
    }
}

/// The nodes whose cached children box (scroll extents) is stale after marking levels
/// `0..k`: a level marked `CHILDREN`, and the parent of a level marked `SELF`.
pub open spec fn forgotten(t: &Tree, chain: Seq<NodeId>, cs: Seq<bool>, what: u8, k: int) -> Seq<NodeId>
    decreases k,
{
    if k <= 0 {
        Seq::empty()
    } else {
        let j = k - 1;
        let w = level_w(t, chain, cs, what, j);
        forgotten(t, chain, cs, what, j)
            + (if w & LAYOUT_CHILDREN == LAYOUT_CHILDREN { seq![chain[j]] } else { Seq::empty() })
            + (if w & LAYOUT_SELF == LAYOUT_SELF && j + 1 < chain.len() { seq![chain[j + 1]] } else { Seq::empty() })
    }
}

/// Whether `t` is `o` with only node payloads changed: same nodes, roots, links, ancestry,
/// style epoch and generation counters.
pub open spec fn same_shape(t: &Tree, o: &Tree) -> bool {
    &&& t.wf()
    &&& t.gens_kept(o)
    &&& t.live_set() == o.live_set()
    &&& t.roots_seq() == o.roots_seq()
    &&& t.epoch_value() == o.epoch_value()
    &&& forall|x: NodeId| #[trigger] o.has(x) ==> t.kids_of(x) == o.kids_of(x) && t.anc_of(x) == o.anc_of(x)
}

/// Whether node `x` of `t` is node `x` of `o` with the layout marks `bits`.
pub open spec fn relabeled(t: &Tree, o: &Tree, x: NodeId, bits: u8) -> bool {
    t.nd(x) == (Node { layout_dirty: LayoutDirty { bits }, ..o.nd(x) })
}

/// Sets the layout marks of `x` to `bits`, nothing else.
fn set_marks(t: &mut Tree, x: NodeId, bits: u8)
    requires
        old(t).wf(),
        old(t).has(x),
    ensures
        same_shape(final(t), old(t)),
        relabeled(final(t), old(t), x, bits),
        forall|y: NodeId| #[trigger] old(t).has(y) && y != x ==> final(t).nd(y) == old(t).nd(y),
{
    let n = t.node(x).unwrap();
    t.set_payload(x, Node { layout_dirty: LayoutDirty { bits }, ..n });
}

proof fn lemma_shape_trans(a: &Tree, b: &Tree, c: &Tree)
    requires
        same_shape(a, b),
        same_shape(b, c),
    ensures
        same_shape(a, c),
{
    Tree::lemma_same_live(b, c);
    Tree::lemma_gens_trans(a, b, c);
    assert forall|x: NodeId| #[trigger] c.has(x) implies a.kids_of(x) == c.kids_of(x) && a.anc_of(x) == c.anc_of(x) by {
        assert(b.has(x));
    }
}

/// Marks pending layout work `what` (`LAYOUT_SELF` / `LAYOUT_CHILDREN`) on `id` (LVGL
/// `lv_obj_mark_layout_as_dirty`): `SELF` also marks the parent `CHILDREN`, and a node whose
/// children changed and that is a wrapper or content-sized is marked `SELF` too, and so on
/// up the tree; every ancestor above learns that a descendant is dirty (`DESCENDANTS`, up
/// to the first one that knew). `content_sized[k]` tells whether level `k` of the chain
/// (`id`, then its ancestors) has a content-sized width or height. Returns the nodes whose
/// cached children box is stale (see [`forgotten`]). Nothing for unknown ids.
pub fn mark_layout(t: &mut Tree, id: NodeId, what: u8, content_sized: &Vec<bool>) -> (forget: Vec<NodeId>)
    requires
        old(t).wf(),
        old(t).has(id) ==> content_sized@.len() == old(t).chain_of(id).len(),
    ensures
        same_shape(final(t), old(t)),
        !old(t).has(id) ==> *final(t) == *old(t) && forget@.len() == 0,
        old(t).has(id) ==> {
            let chain = old(t).chain_of(id);
            let cs = content_sized@;
            &&& forall|j: int| 0 <= j < chain.len() ==> relabeled(final(t), old(t), #[trigger] chain[j], marked_bits(old(t), chain, cs, what, j))
            &&& forall|x: NodeId| #[trigger] old(t).has(x) && !chain.contains(x) ==> final(t).nd(x) == old(t).nd(x)
            &&& forget@ == forgotten(old(t), chain, cs, what, top_from(old(t), chain, cs, what, 0) + 1)
        },
{
    let mut forget: Vec<NodeId> = Vec::new();
    proof {
        t.lemma_gens_refl();
    }
    if !t.contains(id) {
        return forget;
    }
    let a = t.ancestors(id);
    let ghost orig = *t;
    let ghost chain = t.chain_of(id);
    let ghost cs = content_sized@;
    proof {
        t.lemma_chain(id);
        t.lemma_gens_refl();
        assert forall|i: int| 0 <= i < a@.len() implies chain[i + 1] == #[trigger] a@[i] by {}
    }
    let n_levels = a.len() + 1;
    let mut cur = id;
    let mut w = what;
    let mut k: usize = 0;
    let mut go = true;
    while go
        invariant
            same_shape(t, &orig),
            orig.wf(),
            chain == orig.chain_of(id),
            chain.no_duplicates(),
            chain.len() == n_levels,
            n_levels == a@.len() + 1,
            forall|i: int| 0 <= i < chain.len() ==> orig.has(#[trigger] chain[i]),
            forall|i: int| 0 <= i < a@.len() ==> chain[i + 1] == #[trigger] a@[i],
            chain[0] == id,
            cs == content_sized@,
            cs.len() == chain.len(),
            k <= chain.len(),
            go ==> k < chain.len() && cur == chain[k as int] && w == (if k == 0 { what } else { LAYOUT_CHILDREN })
                && top_from(&orig, chain, cs, what, 0) == top_from(&orig, chain, cs, what, k as int),
            !go ==> k >= 1 && top_from(&orig, chain, cs, what, 0) == k - 1,
            forall|j: int| 0 <= j < k ==> relabeled(t, &orig, #[trigger] chain[j],
                orig.nd(chain[j]).layout_dirty.bits | level_w(&orig, chain, cs, what, j)),
            forall|j: int| k <= j < chain.len() ==> t.nd(#[trigger] chain[j]) == orig.nd(chain[j]),
            forall|x: NodeId| #[trigger] orig.has(x) && !chain.contains(x) ==> t.nd(x) == orig.nd(x),
            forget@ == forgotten(&orig, chain, cs, what, k as int),
        decreases chain.len() - k,
    {
        proof {
            Tree::lemma_same_live(t, &orig);
        }
        let n = t.node(cur).unwrap();
        let has_parent = k + 1 < n_levels;
        if w & LAYOUT_CHILDREN == LAYOUT_CHILDREN && w & LAYOUT_SELF != LAYOUT_SELF
            && (n.flags.contains(LAYOUT_PASSTHROUGH) || (content_sized[k] && has_parent)) {
            w = w | LAYOUT_SELF;
        }
        assert(w == level_w(&orig, chain, cs, what, k as int));
        let ghost before = *t;
        set_marks(t, cur, n.layout_dirty.bits | w);
        proof {
            lemma_shape_trans(t, &before, &orig);
            Tree::lemma_same_live(&before, &orig);
            assert forall|j: int| 0 <= j < chain.len() && j != k implies #[trigger] t.nd(chain[j]) == before.nd(chain[j]) by {
                assert(chain[j] != chain[k as int]);
                assert(orig.has(chain[j]));
                assert(before.has(chain[j]));
            }
            assert forall|x: NodeId| #[trigger] orig.has(x) && !chain.contains(x) implies t.nd(x) == orig.nd(x) by {
                assert(x != chain[k as int]);
                assert(before.has(x));
            }
        }
        let ghost fk = forget@;
        if w & LAYOUT_CHILDREN == LAYOUT_CHILDREN {
            forget.push(cur);
        }
        if w & LAYOUT_SELF == LAYOUT_SELF && has_parent {
            forget.push(a[k]);
            cur = a[k];
            w = LAYOUT_CHILDREN;
        } else {
            go = false;
        }
        proof {
            let lw = level_w(&orig, chain, cs, what, k as int);
            assert(forget@ =~= fk
                + (if lw & LAYOUT_CHILDREN == LAYOUT_CHILDREN { seq![chain[k as int]] } else { Seq::<NodeId>::empty() })
                + (if lw & LAYOUT_SELF == LAYOUT_SELF && k + 1 < chain.len() { seq![chain[k + 1]] } else { Seq::<NodeId>::empty() }));
        }
        k = k + 1;
    }
    let ghost top = k - 1;
    let mut j: usize = k;
    let mut go2 = true;
    while go2 && j < n_levels
        invariant
            same_shape(t, &orig),
            orig.wf(),
            chain == orig.chain_of(id),
            chain.no_duplicates(),
            chain.len() == n_levels,
            n_levels == a@.len() + 1,
            forall|i: int| 0 <= i < chain.len() ==> orig.has(#[trigger] chain[i]),
            forall|i: int| 0 <= i < a@.len() ==> chain[i + 1] == #[trigger] a@[i],
            cs == content_sized@,
            top == top_from(&orig, chain, cs, what, 0),
            0 <= top,
            top + 1 <= j <= chain.len(),
            go2 ==> desc_stop(&orig, chain, top + 1) == desc_stop(&orig, chain, j as int),
            !go2 ==> desc_stop(&orig, chain, top + 1) == j,
            forall|i: int| 0 <= i <= top ==> relabeled(t, &orig, #[trigger] chain[i],
                orig.nd(chain[i]).layout_dirty.bits | level_w(&orig, chain, cs, what, i)),
            forall|i: int| top < i < j ==> relabeled(t, &orig, #[trigger] chain[i], orig.nd(chain[i]).layout_dirty.bits | LAYOUT_DESCENDANTS),
            forall|i: int| j <= i < chain.len() ==> t.nd(#[trigger] chain[i]) == orig.nd(chain[i]),
            forall|x: NodeId| #[trigger] orig.has(x) && !chain.contains(x) ==> t.nd(x) == orig.nd(x),
        decreases chain.len() - j + (if go2 { 1int } else { 0int }),
    {
        proof {
            Tree::lemma_same_live(t, &orig);
        }
        let x = a[j - 1];
        let n = t.node(x).unwrap();
        if n.layout_dirty.bits & LAYOUT_DESCENDANTS == LAYOUT_DESCENDANTS {
            go2 = false;
        } else {
            let ghost before = *t;
            set_marks(t, x, n.layout_dirty.bits | LAYOUT_DESCENDANTS);
            proof {
                lemma_shape_trans(t, &before, &orig);
                Tree::lemma_same_live(&before, &orig);
                assert forall|i: int| 0 <= i < chain.len() && i != j implies #[trigger] t.nd(chain[i]) == before.nd(chain[i]) by {
                    assert(chain[i] != chain[j as int]);
                    assert(orig.has(chain[i]));
                    assert(before.has(chain[i]));
                }
                assert forall|y: NodeId| #[trigger] orig.has(y) && !chain.contains(y) implies t.nd(y) == orig.nd(y) by {
                    assert(y != chain[j as int]);
                    assert(before.has(y));
                }
            }
            j = j + 1;
        }
    }
    proof {
        if go2 {
            assert(j == chain.len());
        }
        assert forall|i: int| 0 <= i < chain.len() implies relabeled(t, &orig, #[trigger] chain[i], marked_bits(&orig, chain, cs, what, i)) by {
            if i > top && i >= j {
                assert(orig.nd(chain[i]).layout_dirty == LayoutDirty { bits: orig.nd(chain[i]).layout_dirty.bits });
            }
        }
    }
    forget
}

/// The node that lays out the children of `id`: `id` or its nearest ancestor that is no
/// `LAYOUT_PASSTHROUGH` wrapper (the root when all of them are); `id` itself when unknown.
pub fn layout_owner(t: &Tree, id: NodeId) -> (r: NodeId)
    requires
        t.wf(),
    ensures
        !t.has(id) ==> r == id,
        t.has(id) ==> exists|k: int| 0 <= k < t.chain_of(id).len() && r == #[trigger] t.chain_of(id)[k]
            && (forall|j: int| 0 <= j < k ==> passes_layout(t.nd(#[trigger] t.chain_of(id)[j])))
            && (!passes_layout(t.nd(t.chain_of(id)[k])) || k == t.chain_of(id).len() - 1),
{
    if !t.contains(id) {
        return id;
    }
    let a = t.ancestors(id);
    let ghost chain = t.chain_of(id);
    proof {
        t.lemma_chain(id);
        assert forall|i: int| 0 <= i < a@.len() implies chain[i + 1] == #[trigger] a@[i] by {}
    }
    let mut cur = id;
    let mut k: usize = 0;
    while k < a.len() && t.node(cur).unwrap().flags.contains(LAYOUT_PASSTHROUGH)
        invariant
            t.wf(),
            chain == t.chain_of(id),
            chain.len() == a@.len() + 1,
            forall|i: int| 0 <= i < chain.len() ==> t.has(#[trigger] chain[i]),
            forall|i: int| 0 <= i < a@.len() ==> chain[i + 1] == #[trigger] a@[i],
            k <= a@.len(),
            cur == chain[k as int],
            forall|j: int| 0 <= j < k ==> passes_layout(t.nd(#[trigger] chain[j])),
        decreases a@.len() - k,
    {
        cur = a[k];
        k = k + 1;
    }
    proof {
        assert(chain[k as int] == cur);
    }
    cur
}

/// `r` moved by `(dx, dy)`.
pub open spec fn shifted(r: Rect, dx: int, dy: int) -> Rect {
    Rect { x0: (r.x0 + dx) as i32, y0: (r.y0 + dy) as i32, x1: (r.x1 + dx) as i32, y1: (r.y1 + dy) as i32 }
}

/// Whether `r` moved by `(dx, dy)` stays within `i32`.
pub open spec fn shift_fits(r: Rect, dx: int, dy: int) -> bool {
    &&& i32::MIN <= r.x0 + dx <= i32::MAX
    &&& i32::MIN <= r.y0 + dy <= i32::MAX
    &&& i32::MIN <= r.x1 + dx <= i32::MAX
    &&& i32::MIN <= r.y1 + dy <= i32::MAX
}

/// Whether node `x` of `t` is node `x` of `o` at coordinates `c`.
pub open spec fn placed_at(t: &Tree, o: &Tree, x: NodeId, c: Rect) -> bool {
    t.nd(x) == (Node { coords: c, ..o.nd(x) })
}

/// Sets the coordinates of `x` to `c`, nothing else.
fn set_coords(t: &mut Tree, x: NodeId, c: Rect)
    requires
        old(t).wf(),
        old(t).has(x),
    ensures
        same_shape(final(t), old(t)),
        placed_at(final(t), old(t), x, c),
        forall|y: NodeId| #[trigger] old(t).has(y) && y != x ==> final(t).nd(y) == old(t).nd(y),
{
    let n = t.node(x).unwrap();
    t.set_payload(x, Node { coords: c, ..n });
}

/// Places `id` at the absolute rectangle `rect` right away; its whole subtree moves along
/// by the same offset. Returns the former coordinates when the node moved or was resized
/// (the caller then redraws the old and the new area, refreshes the extra draw size and
/// sends `SizeChanged` on a resize); `None` (nothing changes) for an unknown node or an
/// unchanged rectangle. The moved coordinates must fit `i32`.
pub fn place(t: &mut Tree, id: NodeId, rect: Rect) -> (r: Option<Rect>)
    requires
        old(t).wf(),
        old(t).has(id) ==> i32::MIN <= rect.x0 - old(t).nd(id).coords.x0 <= i32::MAX
            && i32::MIN <= rect.y0 - old(t).nd(id).coords.y0 <= i32::MAX,
        old(t).has(id) ==> forall|x: NodeId| #[trigger] old(t).subtree(id).contains(x) ==> shift_fits(
            old(t).nd(x).coords, rect.x0 - old(t).nd(id).coords.x0, rect.y0 - old(t).nd(id).coords.y0),
    ensures
        same_shape(final(t), old(t)),
        !old(t).has(id) || old(t).nd(id).coords == rect ==> r is None && final(t).nd(id) == old(t).nd(id)
            && forall|x: NodeId| #[trigger] old(t).has(x) ==> final(t).nd(x) == old(t).nd(x),
        old(t).has(id) && old(t).nd(id).coords != rect ==> {
            let c = old(t).nd(id).coords;
            let (dx, dy) = (rect.x0 - c.x0, rect.y0 - c.y0);
            &&& r == Some(c)
            &&& placed_at(final(t), old(t), id, rect)
            &&& forall|x: NodeId| #[trigger] old(t).subtree(id).contains(x) && x != id ==> placed_at(final(t), old(t), x,
                shifted(old(t).nd(x).coords, dx, dy))
            &&& forall|x: NodeId| #[trigger] old(t).has(x) && !old(t).subtree(id).contains(x) ==> final(t).nd(x) == old(t).nd(x)
        },
{
    proof {
        t.lemma_gens_refl();
    }
    let n = match t.node(id) {
        Some(n) => n,
        None => { return None; },
    };
    let old_c = n.coords;
    if old_c == rect {
        return None;
    }
    let ghost orig = *t;
    let dx = rect.x0 - old_c.x0;
    let dy = rect.y0 - old_c.y0;
    proof {
        assert(orig.subtree(id).contains(id));
    }
    let s = t.descendants(id);
    proof {
        assert forall|x: NodeId| #[trigger] s@.contains(x) <==> orig.subtree(id).contains(x) by {}
    }
    let mut k: usize = 1;
    while k < s.len()
        invariant
            same_shape(t, &orig),
            orig.wf(),
            orig.has(id),
            Tree::pre_order_of(&orig, s@, id),
            forall|x: NodeId| #[trigger] s@.contains(x) <==> orig.subtree(id).contains(x),
            forall|x: NodeId| #[trigger] orig.subtree(id).contains(x) ==> shift_fits(orig.nd(x).coords, dx as int, dy as int),
            1 <= k <= s@.len(),
            forall|j: int| 1 <= j < k ==> placed_at(t, &orig, #[trigger] s@[j], shifted(orig.nd(s@[j]).coords, dx as int, dy as int)),
            forall|j: int| k <= j < s@.len() ==> t.nd(#[trigger] s@[j]) == orig.nd(s@[j]),
            t.nd(id) == orig.nd(id),
            forall|x: NodeId| #[trigger] orig.has(x) && !s@.contains(x) ==> t.nd(x) == orig.nd(x),
        decreases s@.len() - k,
    {
        proof {
            Tree::lemma_same_live(t, &orig);
        }
        let x = s[k];
        proof {
            assert(s@.contains(x));
            assert(orig.has(x));
            assert(x != id) by {
                assert(s@[0] == id);
            }
        }
        let c = t.node(x).unwrap().coords;
        let moved = Rect { x0: c.x0 + dx, y0: c.y0 + dy, x1: c.x1 + dx, y1: c.y1 + dy };
        let ghost before = *t;
        set_coords(t, x, moved);
        proof {
            lemma_shape_trans(t, &before, &orig);
            Tree::lemma_same_live(&before, &orig);
            assert forall|j: int| 0 <= j < s@.len() && j != k implies #[trigger] t.nd(s@[j]) == before.nd(s@[j]) by {
                assert(s@[j] != s@[k as int]);
                assert(s@.contains(s@[j]));
                assert(before.has(s@[j]));
            }
            assert(t.nd(id) == before.nd(id)) by {
                assert(before.has(id));
            }
            assert forall|y: NodeId| #[trigger] orig.has(y) && !s@.contains(y) implies t.nd(y) == orig.nd(y) by {
                assert(y != x);
                assert(before.has(y));
            }
        }
        k = k + 1;
    }
    let ghost before = *t;
    proof {
        Tree::lemma_same_live(t, &orig);
    }
    set_coords(t, id, rect);
    proof {
        lemma_shape_trans(t, &before, &orig);
        Tree::lemma_same_live(&before, &orig);
        assert forall|x: NodeId| #[trigger] orig.subtree(id).contains(x) && x != id implies placed_at(t, &orig, x,
            shifted(orig.nd(x).coords, dx as int, dy as int)) by {
            assert(s@.contains(x));
            let j = s@.index_of(x);
            assert(s@[j] == x);
            assert(j != 0);
            assert(before.has(x));
        }
        assert forall|y: NodeId| #[trigger] orig.has(y) && !orig.subtree(id).contains(y) implies t.nd(y) == orig.nd(y) by {
            assert(!s@.contains(y));
            assert(y != id);
            assert(before.has(y));
        }
    }
    Some(old_c)
}

/// The number of pixels of `r` (its width times its height).
pub open spec fn pixels(r: Rect) -> int {
    (r.x1 - r.x0) * (r.y1 - r.y0)
}

/// The smallest rectangle holding `a` and `b`.
pub open spec fn hull(a: Rect, b: Rect) -> Rect {
    Rect {
        x0: imin(a.x0 as int, b.x0 as int) as i32,
        y0: imin(a.y0 as int, b.y0 as int) as i32,
        x1: imax(a.x1 as int, b.x1 as int) as i32,
        y1: imax(a.y1 as int, b.y1 as int) as i32,
    }
}

/// What a node moved by the layout redraws, from its old and its new area (coordinates
/// plus extra draw size): one rectangle around both when they overlap and it is at most
/// twice their combined size, else both areas on their own.
pub fn move_redraw(old_area: Rect, new_area: Rect) -> (r: (Rect, Option<Rect>))
    requires
        old_area.wf(),
        new_area.wf(),
    ensures
        ({
            let u = hull(old_area, new_area);
            if meet(old_area, new_area) is Some && pixels(u) <= 2 * (pixels(old_area) + pixels(new_area)) {
                r == (u, None::<Rect>)
            } else {
                r == (old_area, Some(new_area))
            }
        }),
{
    let u = Rect {
        x0: if old_area.x0 <= new_area.x0 { old_area.x0 } else { new_area.x0 },
        y0: if old_area.y0 <= new_area.y0 { old_area.y0 } else { new_area.y0 },
        x1: if old_area.x1 >= new_area.x1 { old_area.x1 } else { new_area.x1 },
        y1: if old_area.y1 >= new_area.y1 { old_area.y1 } else { new_area.y1 },
    };
    if old_area.intersection(&new_area).is_some() {
        let pu = pixels64(u);
        let pa = pixels64(old_area);
        let pb = pixels64(new_area);
        if pu <= 2 * (pa + pb) {
            return (u, None);
        }
    }
    (old_area, Some(new_area))
}

/// [`pixels`] in 64 bits, for rectangles in the coordinate range.
fn pixels64(r: Rect) -> (p: i64)
    requires
        r.wf(),
    ensures
        p == pixels(r),
        -0x1000_0000_0000_0000 <= p <= 0x1000_0000_0000_0000,
{
    let w: i64 = r.x1 as i64 - r.x0 as i64;
    let h: i64 = r.y1 as i64 - r.y0 as i64;
    assert(-0x1000_0000_0000_0000 <= w * h <= 0x1000_0000_0000_0000) by (nonlinear_arith)
        requires -0x4000_0000 <= w <= 0x4000_0000, -0x4000_0000 <= h <= 0x4000_0000;
    w * h
}

} // verus!
