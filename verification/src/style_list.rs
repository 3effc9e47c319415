//! The style entries of a node ([`StyleList`]), kept sorted by priority: transitions, local
//! styles (one per selector), normal styles (latest added first), theme styles (latest added
//! first). Styles themselves are referred to by handle.
use vstd::prelude::*;

verus! {

/// The priority class of a style entry.
#[derive(Clone, Copy, Debug, PartialEq, Eq, Structural, Hash)]
pub enum EntryKind {
    Transition,
    Local,
    Normal,
    Theme,
}

/// The rank of a priority class: lower comes first.
pub open spec fn rank_of(k: EntryKind) -> int {
    match k {
        EntryKind::Transition => 0,
        EntryKind::Local => 1,
        EntryKind::Normal => 2,
        EntryKind::Theme => 3,
    }
}

fn rank(k: EntryKind) -> (r: u8)
    ensures
        r == rank_of(k),
{
    match k {
        EntryKind::Transition => 0,
        EntryKind::Local => 1,
        EntryKind::Normal => 2,
        EntryKind::Theme => 3,
    }
}

/// One style entry: its class, the selector (part and state) it applies to, and the handle
/// of its style.
#[derive(Clone, Copy, Debug, PartialEq, Eq, Structural, Hash)]
pub struct StyleEntry {
    pub kind: EntryKind,
    pub selector: u32,
    pub style: u32,
}

/// Whether the entries are sorted by rank.
pub open spec fn ranked(s: Seq<StyleEntry>) -> bool {
    forall|i: int, j: int| 0 <= i < j < s.len() ==> rank_of(#[trigger] s[i].kind) <= rank_of(#[trigger] s[j].kind)
}

/// The position where an entry of rank `r` goes: before the first entry of the same or a
/// lower priority class.
pub open spec fn insert_pos(s: Seq<StyleEntry>, r: int, p: int) -> bool {
    &&& 0 <= p <= s.len()
    &&& forall|k: int| 0 <= k < p ==> rank_of(#[trigger] s[k].kind) < r
    &&& p < s.len() ==> rank_of(s[p].kind) >= r
}

/// The style entries of a node, highest priority first.
#[derive(Clone, Debug)]
pub struct StyleList {
    pub entries: Vec<StyleEntry>,
}

impl StyleList {
    /// An empty list.
    pub fn new() -> (l: StyleList)
        ensures
            l.entries@.len() == 0,
    {
        StyleList { entries: Vec::new() }
    }

    /// The entries, highest priority first.
    pub fn entries(&self) -> (r: &[StyleEntry])
        ensures
            r@ == self.entries@,
    {
        self.entries.as_slice()
    }

    /// Number of entries.
    pub fn len(&self) -> (n: usize)
        ensures
            n == self.entries@.len(),
    {
        self.entries.len()
    }

    /// Whether there are no entries.
    pub fn is_empty(&self) -> (b: bool)
        ensures
            b == (self.entries@.len() == 0),
    {
        self.entries.len() == 0
    }

    /// Inserts `e` before every entry of the same or a lower priority class (so the latest
    /// added style of a class comes first).
    pub fn insert(&mut self, e: StyleEntry)
        ensures
            exists|p: int| insert_pos(old(self).entries@, rank_of(e.kind), p) && final(self).entries@ == old(self).entries@.insert(p, e),
            ranked(old(self).entries@) ==> ranked(final(self).entries@),
    {
        let r = rank(e.kind);
        let mut p: usize = 0;
        while p < self.entries.len() && rank(self.entries[p].kind) < r
            invariant
                p <= self.entries@.len(),
                self.entries@ == old(self).entries@,
                forall|k: int| 0 <= k < p ==> rank_of(#[trigger] self.entries@[k].kind) < r,
            decreases self.entries@.len() - p,
        {
            p = p + 1;
        }
        self.entries.insert(p, e);
        proof {
            let o = old(self).entries@;
            assert(insert_pos(o, rank_of(e.kind), p as int));
            if ranked(o) {
                let n = self.entries@;
                assert forall|i: int, j: int| 0 <= i < j < n.len() implies rank_of(#[trigger] n[i].kind) <= rank_of(#[trigger] n[j].kind) by {
                    if i < p && j == p {
                    } else if i == p && j > p {
                        assert(n[j] == o[j - 1]);
                        if p < o.len() {
                            assert(rank_of(o[p as int].kind) <= rank_of(o[j - 1].kind));
                        }
                    } else if i < p && j > p {
                        assert(n[j] == o[j - 1]);
                    } else if i > p {
                        assert(n[i] == o[i - 1] && n[j] == o[j - 1]);
                    }
                }
            }
        }
    }

    /// The position of the local entry of `sel`.
    pub fn local(&self, sel: u32) -> (r: Option<usize>)
        ensures
            match r {
                Some(i) => i < self.entries@.len() && self.entries@[i as int].kind == EntryKind::Local
                    && self.entries@[i as int].selector == sel
                    && forall|k: int| 0 <= k < i ==> !(self.entries@[k].kind == EntryKind::Local && self.entries@[k].selector == sel),
                None => forall|k: int| 0 <= k < self.entries@.len() ==> !(self.entries@[k].kind == EntryKind::Local && self.entries@[k].selector == sel),
            },
    {
        let mut i: usize = 0;
        while i < self.entries.len()
            invariant
                i <= self.entries@.len(),
                forall|k: int| 0 <= k < i ==> !(self.entries@[k].kind == EntryKind::Local && self.entries@[k].selector == sel),
            decreases self.entries@.len() - i,
        {
            let e = self.entries[i];
            let is_local = match e.kind {
                EntryKind::Local => true,
                _ => false,
            };
            if is_local && e.selector == sel {
                return Some(i);
            }
            i = i + 1;
        }
        None
    }

    /// The position of the local entry of `sel`, inserting one with style `style` when
    /// there is none.
    pub fn local_or_insert(&mut self, sel: u32, style: u32) -> (r: usize)
        ensures
            r < final(self).entries@.len(),
            final(self).entries@[r as int].kind == EntryKind::Local,
            final(self).entries@[r as int].selector == sel,
            (exists|k: int| 0 <= k < old(self).entries@.len() && old(self).entries@[k].kind == EntryKind::Local && old(self).entries@[k].selector == sel)
                ==> final(self).entries@ == old(self).entries@,
            ranked(old(self).entries@) ==> ranked(final(self).entries@),
    {
        match self.local(sel) {
            Some(i) => i,
            None => {
                let e = StyleEntry { kind: EntryKind::Local, selector: sel, style };
                self.insert(e);
                match self.local(sel) {
                    Some(i) => i,
                    None => {
                        proof {
                            let p = choose|p: int| insert_pos(old(self).entries@, rank_of(e.kind), p) && self.entries@ == old(self).entries@.insert(p, e);
                            assert(self.entries@[p] == e);
                        }
                        0
                    },
                }
            },
        }
    }

    /// Removes and returns the entry at `i`.
    pub fn remove_at(&mut self, i: usize) -> (e: StyleEntry)
        requires
            i < old(self).entries@.len(),
        ensures
            e == old(self).entries@[i as int],
            final(self).entries@ == old(self).entries@.remove(i as int),
            ranked(old(self).entries@) ==> ranked(final(self).entries@),
    {
        let e = self.entries.remove(i);
        proof {
            let o = old(self).entries@;
            let n = self.entries@;
            if ranked(o) {
                assert forall|a: int, b: int| 0 <= a < b < n.len() implies rank_of(#[trigger] n[a].kind) <= rank_of(#[trigger] n[b].kind) by {
                    let oa = if a < i { a } else { a + 1 };
                    let ob = if b < i { b } else { b + 1 };
                    assert(n[a] == o[oa] && n[b] == o[ob]);
                }
            }
        }
        e
    }

    /// Removes the entries with style `style`; returns how many.
    pub fn remove_style(&mut self, style: u32) -> (n: usize)
        ensures
            final(self).entries@ == old(self).entries@.filter(|e: StyleEntry| e.style != style),
            n == old(self).entries@.len() - final(self).entries@.len(),
    {
        let ghost o = self.entries@;
        let mut kept: Vec<StyleEntry> = Vec::new();
        let mut i: usize = 0;
        while i < self.entries.len()
            invariant
                i <= self.entries@.len(),
                self.entries@ == o,
                kept@ == o.take(i as int).filter(|e: StyleEntry| e.style != style),
                kept@.len() <= i,
            decreases self.entries@.len() - i,
        {
            let e = self.entries[i];
            if e.style != style {
                kept.push(e);
            }
            proof {
                assert(o.take(i + 1) =~= o.take(i as int).push(e));
                o.take(i as int).lemma_filter_push(e, |e: StyleEntry| e.style != style);
            }
            i = i + 1;
        }
        proof {
            assert(o.take(o.len() as int) =~= o);
        }
        let removed = self.entries.len() - kept.len();
        self.entries = kept;
        removed
    }
}

} // verus!
