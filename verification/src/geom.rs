//! Integer geometry: [`Point`] and [`Rect`] (half-open: `x1`/`y1` are one past the last pixel).
use vstd::prelude::*;

verus! {

/// Largest coordinate magnitude the engine works with (LVGL `LV_COORD_MAX`).
pub const COORD_MAX: i32 = 536870911;

/// Smallest coordinate.
pub const COORD_MIN: i32 = -536870911;

/// Whether `v` lies in the coordinate range.
pub open spec fn coord_ok(v: int) -> bool {
    COORD_MIN <= v <= COORD_MAX
}

/// A point.
#[derive(Clone, Copy, Debug, PartialEq, Eq, Structural, Hash, Default)]
pub struct Point {
    pub x: i32,
    pub y: i32,
}

impl Point {
    /// The point `(x, y)`.
    pub fn new(x: i32, y: i32) -> (p: Point)
        ensures
            p.x == x && p.y == y,
    {
        Point { x, y }
    }

    /// The origin.
    pub fn zero() -> (p: Point)
        ensures
            p.x == 0 && p.y == 0,
    {
        Point { x: 0, y: 0 }
    }

    /// Both coordinates in the coordinate range.
    pub open spec fn wf(self) -> bool {
        coord_ok(self.x as int) && coord_ok(self.y as int)
    }
}

/// A rectangle `[x0, x1) × [y0, y1)`.
#[derive(Clone, Copy, Debug, PartialEq, Eq, Structural, Hash, Default)]
pub struct Rect {
    pub x0: i32,
    pub y0: i32,
    pub x1: i32,
    pub y1: i32,
}

/// `v` rounded down to a multiple of `a` (`a > 0`).
pub open spec fn floor_to(v: int, a: int) -> int {
    v - v % a
}

/// `v` rounded up to a multiple of `a` (`a > 0`).
pub open spec fn ceil_to(v: int, a: int) -> int {
    if v % a == 0 { v } else { v + (a - v % a) }
}

/// The larger of two integers.
pub open spec fn imax(a: int, b: int) -> int {
    if a >= b { a } else { b }
}

/// The smaller of two integers.
pub open spec fn imin(a: int, b: int) -> int {
    if a <= b { a } else { b }
}

/// The common part of `a` and `b`, `None` when it is empty.
pub open spec fn meet(a: Rect, b: Rect) -> Option<Rect> {
    let x0 = imax(a.x0 as int, b.x0 as int);
    let y0 = imax(a.y0 as int, b.y0 as int);
    let x1 = imin(a.x1 as int, b.x1 as int);
    let y1 = imin(a.y1 as int, b.y1 as int);
    if x0 < x1 && y0 < y1 { Some(Rect { x0: x0 as i32, y0: y0 as i32, x1: x1 as i32, y1: y1 as i32 }) } else { None }
}

impl Rect {
    /// All corners in the coordinate range.
    pub open spec fn wf(self) -> bool {
        coord_ok(self.x0 as int) && coord_ok(self.y0 as int) && coord_ok(self.x1 as int)
            && coord_ok(self.y1 as int)
    }

    /// Whether the rectangle covers no pixel.
    pub open spec fn spec_is_empty(self) -> bool {
        self.x1 <= self.x0 || self.y1 <= self.y0
    }

    /// Whether the pixel `(x, y)` is inside.
    pub open spec fn has(self, x: int, y: int) -> bool {
        self.x0 <= x < self.x1 && self.y0 <= y < self.y1
    }

    /// The rectangle `(x0, y0) – (x1, y1)`.
    pub fn new(x0: i32, y0: i32, x1: i32, y1: i32) -> (r: Rect)
        ensures
            r.x0 == x0 && r.y0 == y0 && r.x1 == x1 && r.y1 == y1,
    {
        Rect { x0, y0, x1, y1 }
    }

    /// The empty rectangle at the origin.
    pub fn zero() -> (r: Rect)
        ensures
            r.x0 == 0 && r.y0 == 0 && r.x1 == 0 && r.y1 == 0,
    {
        Rect { x0: 0, y0: 0, x1: 0, y1: 0 }
    }

    /// The rectangle at `(x, y)` of size `w × h`.
    pub fn from_xywh(x: i32, y: i32, w: i32, h: i32) -> (r: Rect)
        requires
            coord_ok(x as int) && coord_ok(y as int) && coord_ok(w as int) && coord_ok(h as int),
        ensures
            r.x0 == x && r.y0 == y && r.x1 == x + w && r.y1 == y + h,
    {
        Rect { x0: x, y0: y, x1: x + w, y1: y + h }
    }

    /// Width (`x1 - x0`, negative for inverted rectangles).
    pub fn width(&self) -> (w: i32)
        requires
            self.wf(),
        ensures
            w == self.x1 - self.x0,
    {
        self.x1 - self.x0
    }

    /// Height (`y1 - y0`).
    pub fn height(&self) -> (h: i32)
        requires
            self.wf(),
        ensures
            h == self.y1 - self.y0,
    {
        self.y1 - self.y0
    }

    /// Whether no pixel is covered.
    pub fn is_empty(&self) -> (b: bool)
        ensures
            b == self.spec_is_empty(),
    {
        self.x1 <= self.x0 || self.y1 <= self.y0
    }

    /// Whether `p` is inside.
    pub fn contains(&self, p: Point) -> (b: bool)
        ensures
            b == self.has(p.x as int, p.y as int),
    {
        self.x0 <= p.x && p.x < self.x1 && self.y0 <= p.y && p.y < self.y1
    }

    /// The rectangle grown by `d` on every side.
    pub fn expand(&self, d: i32) -> (r: Rect)
        requires
            self.wf(),
            0 <= d <= COORD_MAX,
        ensures
            r.x0 == self.x0 - d && r.y0 == self.y0 - d && r.x1 == self.x1 + d && r.y1 == self.y1 + d,
    {
        Rect { x0: self.x0 - d, y0: self.y0 - d, x1: self.x1 + d, y1: self.y1 + d }
    }

    /// The common part of two rectangles, `None` when it is empty.
    pub fn intersection(&self, o: &Rect) -> (r: Option<Rect>)
        ensures
            r == meet(*self, *o),
            ({
                let x0 = imax(self.x0 as int, o.x0 as int);
                let y0 = imax(self.y0 as int, o.y0 as int);
                let x1 = imin(self.x1 as int, o.x1 as int);
                let y1 = imin(self.y1 as int, o.y1 as int);
                match r {
                    Some(i) => x0 < x1 && y0 < y1 && i.x0 == x0 && i.y0 == y0 && i.x1 == x1 && i.y1
                        == y1,
                    None => x1 <= x0 || y1 <= y0,
                }
            }),
    {
        let x0 = if self.x0 >= o.x0 { self.x0 } else { o.x0 };
        let y0 = if self.y0 >= o.y0 { self.y0 } else { o.y0 };
        let x1 = if self.x1 <= o.x1 { self.x1 } else { o.x1 };
        let y1 = if self.y1 <= o.y1 { self.y1 } else { o.y1 };
        if x0 < x1 && y0 < y1 {
            Some(Rect { x0, y0, x1, y1 })
        } else {
            None
        }
    }

    /// The corners rounded outwards to multiples of `align` (`x0`/`y0` down, `x1`/`y1` up);
    /// `align ≤ 1` leaves the rectangle unchanged.
    pub fn round_out(&self, align: u8) -> (r: Rect)
        requires
            self.wf(),
        ensures
            align <= 1 ==> r == *self,
            align > 1 ==> r.x0 == floor_to(self.x0 as int, align as int) && r.y0 == floor_to(
                self.y0 as int,
                align as int,
            ) && r.x1 == ceil_to(self.x1 as int, align as int) && r.y1 == ceil_to(
                self.y1 as int,
                align as int,
            ),
    {
        if align <= 1 {
            return *self;
        }
        Rect {
            x0: floor_i32(self.x0, align),
            y0: floor_i32(self.y0, align),
            x1: ceil_i32(self.x1, align),
            y1: ceil_i32(self.y1, align),
        }
    }
}

/// `v mod a` (Euclidean) for `a > 0`.
fn rem_i32(v: i32, a: u8) -> (m: i32)
    requires
        a > 0,
        coord_ok(v as int),
    ensures
        m == (v as int) % (a as int),
        0 <= m < a,
{
    let au = a as u32;
    if v >= 0 {
        ((v as u32) % au) as i32
    } else {
        let nv: u32 = (-v) as u32;
        let k = nv % au;
        proof {
            assert(((-v) as int) % (a as int) == k);
            lemma_neg_mod(v as int, a as int);
        }
        if k == 0 {
            0
        } else {
            (au - k) as i32
        }
    }
}

proof fn lemma_neg_mod(v: int, a: int)
    requires
        a > 0,
        v < 0,
    ensures
        ((-v) % a == 0) ==> v % a == 0,
        ((-v) % a != 0) ==> v % a == a - (-v) % a,
{
    let k = (-v) % a;
    let q = (-v) / a;
    vstd::arithmetic::div_mod::lemma_fundamental_div_mod(-v, a);
    // -v == a*q + k, so v == a*(-q) + (-k)
    if k == 0 {
        vstd::arithmetic::div_mod::lemma_mod_multiples_basic(-q, a);
        assert(v == (-q) * a) by (nonlinear_arith)
            requires
                -v == a * q + k,
                k == 0,
        ;
    } else {
        assert(v == (-q - 1) * a + (a - k)) by (nonlinear_arith)
            requires
                -v == a * q + k,
        ;
        vstd::arithmetic::div_mod::lemma_mod_multiples_vanish(-q - 1, a - k, a);
        vstd::arithmetic::div_mod::lemma_small_mod((a - k) as nat, a as nat);
    }
}

fn floor_i32(v: i32, a: u8) -> (r: i32)
    requires
        a > 0,
        coord_ok(v as int),
    ensures
        r == floor_to(v as int, a as int),
{
    v - rem_i32(v, a)
}

fn ceil_i32(v: i32, a: u8) -> (r: i32)
    requires
        a > 0,
        coord_ok(v as int),
    ensures
        r == ceil_to(v as int, a as int),
{
    let m = rem_i32(v, a);
    if m == 0 {
        v
    } else {
        v + (a as i32 - m)
    }
}

} // verus!
