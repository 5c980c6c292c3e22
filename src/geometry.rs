//! Integer geometry in logical pixels: points, rectangles and size constraints.
//!
//! Coordinates are `i64`. Arithmetic that could leave that range saturates at
//! its bounds, so every operation here is total.
use vstd::prelude::*;

verus! {

/// The clamp of an unbounded integer into the range of `i64`.
pub open spec fn sat(v: int) -> int {
    if v > i64::MAX {
        i64::MAX as int
    } else if v < i64::MIN {
        i64::MIN as int
    } else {
        v
    }
}

pub open spec fn min_int(a: int, b: int) -> int {
    if a <= b {
        a
    } else {
        b
    }
}

pub open spec fn max_int(a: int, b: int) -> int {
    if a >= b {
        a
    } else {
        b
    }
}

/// Saturating addition on coordinates.
pub fn add_sat(a: i64, b: i64) -> (r: i64)
    ensures
        r == sat(a + b),
{
    if b > 0 && a > i64::MAX - b {
        i64::MAX
    } else if b < 0 && a < i64::MIN - b {
        i64::MIN
    } else {
        a + b
    }
}

/// Saturating subtraction on coordinates.
pub fn sub_sat(a: i64, b: i64) -> (r: i64)
    ensures
        r == sat(a - b),
{
    if b < 0 && a > i64::MAX + b {
        i64::MAX
    } else if b > 0 && a < i64::MIN + b {
        i64::MIN
    } else {
        a - b
    }
}

pub fn min_i64(a: i64, b: i64) -> (r: i64)
    ensures
        r == min_int(a as int, b as int),
{
    if a <= b {
        a
    } else {
        b
    }
}

pub fn max_i64(a: i64, b: i64) -> (r: i64)
    ensures
        r == max_int(a as int, b as int),
{
    if a >= b {
        a
    } else {
        b
    }
}

/// Division rounding toward zero.
pub open spec fn trunc_div(v: int, d: int) -> int {
    if v >= 0 {
        v / d
    } else {
        -((-v) / d)
    }
}

proof fn lemma_div_succ(w: int, d: int)
    requires
        w >= 0,
        d >= 1,
    ensures
        (w + 1) / d == w / d + (w % d + 1) / d,
{
    vstd::arithmetic::div_mod::lemma_fundamental_div_mod(w, d);
    vstd::arithmetic::div_mod::lemma_mod_pos_bound(w, d);
    let q = w / d;
    let m = w % d;
    assert(w == q * d + m) by {
        vstd::arithmetic::mul::lemma_mul_is_commutative(q, d);
    }
    if m + 1 < d {
        vstd::arithmetic::div_mod::lemma_fundamental_div_mod_converse_div(w + 1, d, q, m + 1);
        vstd::arithmetic::div_mod::lemma_fundamental_div_mod_converse_div(m + 1, d, 0, m + 1);
    } else {
        assert(w + 1 == (q + 1) * d + 0) by {
            vstd::arithmetic::mul::lemma_mul_is_distributive_add_other_way(d, q, 1);
        }
        vstd::arithmetic::div_mod::lemma_fundamental_div_mod_converse_div(w + 1, d, q + 1, 0);
        vstd::arithmetic::div_mod::lemma_fundamental_div_mod_converse_div(m + 1, d, 1, 0);
    }
}

/// A coordinate divided by a positive scale, rounding toward zero.
pub fn scale_div(v: i64, s: u32) -> (r: i64)
    requires
        s >= 1,
    ensures
        r == trunc_div(v as int, s as int),
{
    let d = s as u64;
    if s == 1 {
        return v;
    }
    if v >= 0 {
        let q = (v as u64) / d;
        assert(q <= v) by {
            vstd::arithmetic::div_mod::lemma_div_is_ordered_by_denominator(v as int, 1, d as int);
        }
        q as i64
    } else {
        let w = (-(v + 1)) as u64;
        let q = w / d;
        let m = w % d;
        let r = q + (m + 1) / d;
        proof {
            lemma_div_succ(w as int, d as int);
            vstd::arithmetic::div_mod::lemma_div_is_ordered_by_denominator(w as int + 1, 2, d as int);
            vstd::arithmetic::div_mod::lemma_div_is_ordered_by_denominator(w as int + 1, 1, 2);
            assert((w as int + 1) / 2 <= 0x4000_0000_0000_0000) by {
                vstd::arithmetic::div_mod::lemma_div_is_ordered(w as int + 1, 0x8000_0000_0000_0000, 2);
            }
            assert(-(v as int) == w + 1);
            assert(r == (w as int + 1) / (d as int));
        }
        -(r as i64)
    }
}

/// A point or an extent on the two axes.
#[derive(Clone, Copy, Debug, PartialEq, Eq, Structural)]
pub struct Vec2 {
    pub x: i64,
    pub y: i64,
}

impl Vec2 {
    pub fn new(x: i64, y: i64) -> (r: Vec2)
        ensures
            r.x == x,
            r.y == y,
    {
        Vec2 { x, y }
    }

    pub fn zero() -> (r: Vec2)
        ensures
            r.x == 0,
            r.y == 0,
    {
        Vec2 { x: 0, y: 0 }
    }

    pub open spec fn spec_add(self, o: Vec2) -> Vec2 {
        Vec2 { x: sat(self.x + o.x) as i64, y: sat(self.y + o.y) as i64 }
    }

    pub open spec fn spec_sub(self, o: Vec2) -> Vec2 {
        Vec2 { x: sat(self.x - o.x) as i64, y: sat(self.y - o.y) as i64 }
    }

    /// Componentwise saturating sum.
    pub fn add(self, o: Vec2) -> (r: Vec2)
        ensures
            r == self.spec_add(o),
    {
        Vec2 { x: add_sat(self.x, o.x), y: add_sat(self.y, o.y) }
    }

    /// Componentwise saturating difference.
    pub fn sub(self, o: Vec2) -> (r: Vec2)
        ensures
            r == self.spec_sub(o),
    {
        Vec2 { x: sub_sat(self.x, o.x), y: sub_sat(self.y, o.y) }
    }

    pub open spec fn spec_max(self, o: Vec2) -> Vec2 {
        Vec2 { x: max_int(self.x as int, o.x as int) as i64, y: max_int(self.y as int, o.y as int) as i64 }
    }

    /// Componentwise maximum.
    pub fn max(self, o: Vec2) -> (r: Vec2)
        ensures
            r == self.spec_max(o),
    {
        Vec2 { x: max_i64(self.x, o.x), y: max_i64(self.y, o.y) }
    }
}

/// An axis-aligned rectangle: a position (its top-left corner) and a size.
#[derive(Clone, Copy, Debug, PartialEq, Eq, Structural)]
pub struct Rect {
    pub pos: Vec2,
    pub size: Vec2,
}

impl Rect {
    /// The right edge, saturated.
    pub open spec fn right(self) -> int {
        sat(self.pos.x + self.size.x)
    }

    /// The bottom edge, saturated.
    pub open spec fn bottom(self) -> int {
        sat(self.pos.y + self.size.y)
    }

    /// A rectangle of zero area: one of its extents is zero or less.
    pub open spec fn spec_is_degenerate(self) -> bool {
        self.size.x <= 0 || self.size.y <= 0
    }

    /// `inner` lies inside `self`, edges included.
    pub open spec fn encloses(self, inner: Rect) -> bool {
        &&& self.pos.x <= inner.pos.x
        &&& self.pos.y <= inner.pos.y
        &&& inner.right() <= self.right()
        &&& inner.bottom() <= self.bottom()
    }

    /// The point lies inside the rectangle: its left and top edges included,
    /// its right and bottom edges excluded.
    pub open spec fn spec_contains(self, p: Vec2) -> bool {
        &&& self.pos.x <= p.x
        &&& self.pos.y <= p.y
        &&& p.x < self.right()
        &&& p.y < self.bottom()
    }

    /// The overlap of two rectangles; an empty overlap keeps the larger
    /// corner as its position and has a zero extent.
    pub open spec fn spec_constrain(self, other: Rect) -> Rect {
        let x0 = max_int(self.pos.x as int, other.pos.x as int);
        let y0 = max_int(self.pos.y as int, other.pos.y as int);
        let x1 = min_int(self.right(), other.right());
        let y1 = min_int(self.bottom(), other.bottom());
        Rect {
            pos: Vec2 { x: x0 as i64, y: y0 as i64 },
            size: Vec2 { x: sat(max_int(x1 - x0, 0)) as i64, y: sat(max_int(y1 - y0, 0)) as i64 },
        }
    }

    pub fn from_pos_size(pos: Vec2, size: Vec2) -> (r: Rect)
        ensures
            r.pos == pos,
            r.size == size,
    {
        Rect { pos, size }
    }

    pub fn zero() -> (r: Rect)
        ensures
            r.pos == (Vec2 { x: 0, y: 0 }),
            r.size == (Vec2 { x: 0, y: 0 }),
    {
        Rect { pos: Vec2::zero(), size: Vec2::zero() }
    }

    pub fn pos(&self) -> (r: Vec2)
        ensures
            r == self.pos,
    {
        self.pos
    }

    pub fn size(&self) -> (r: Vec2)
        ensures
            r == self.size,
    {
        self.size
    }

    pub fn set_pos(&mut self, pos: Vec2)
        ensures
            final(self).pos == pos,
            final(self).size == old(self).size,
    {
        self.pos = pos;
    }

    pub fn set_size(&mut self, size: Vec2)
        ensures
            final(self).pos == old(self).pos,
            final(self).size == size,
    {
        self.size = size;
    }

    /// The bottom-right corner, saturated.
    pub fn max(&self) -> (r: Vec2)
        ensures
            r.x == self.right(),
            r.y == self.bottom(),
    {
        self.pos.add(self.size)
    }

    /// Whether the rectangle covers no area.
    pub fn is_degenerate(&self) -> (r: bool)
        ensures
            r == self.spec_is_degenerate(),
    {
        self.size.x <= 0 || self.size.y <= 0
    }

    /// Whether the point lies inside the rectangle.
    pub fn contains_point(&self, p: Vec2) -> (r: bool)
        ensures
            r == self.spec_contains(p),
    {
        let m = self.max();
        self.pos.x <= p.x && self.pos.y <= p.y && p.x < m.x && p.y < m.y
    }

    /// The intersection of the two rectangles.
    pub fn constrain(self, other: Rect) -> (r: Rect)
        ensures
            r == self.spec_constrain(other),
    {
        let a = self.max();
        let b = other.max();
        let x0 = max_i64(self.pos.x, other.pos.x);
        let y0 = max_i64(self.pos.y, other.pos.y);
        let x1 = min_i64(a.x, b.x);
        let y1 = min_i64(a.y, b.y);
        let w = sub_sat(x1, x0);
        let h = sub_sat(y1, y0);
        Rect { pos: Vec2 { x: x0, y: y0 }, size: Vec2 { x: max_i64(w, 0), y: max_i64(h, 0) } }
    }
}

/// The largest value of an axis; a maximum extent equal to it is unbounded.
pub const UNBOUNDED: i64 = 0x7fff_ffff_ffff_ffff;

/// The least and the greatest size a widget may take on each axis.
#[derive(Clone, Copy, Debug, PartialEq, Eq, Structural)]
pub struct Constraints {
    pub min: Vec2,
    pub max: Vec2,
}

/// One axis of `Constraints::constrain`: the size is raised to the minimum,
/// then lowered to the maximum, so the maximum wins when the two cross.
pub open spec fn clamp_axis(v: int, lo: int, hi: int) -> int {
    min_int(max_int(v, lo), hi)
}

impl Constraints {
    /// Exactly the given size.
    pub fn tight(size: Vec2) -> (r: Constraints)
        ensures
            r.min == size,
            r.max == size,
    {
        Constraints { min: size, max: size }
    }

    /// Anything from zero up to the given size.
    pub fn loose(max: Vec2) -> (r: Constraints)
        ensures
            r.min == (Vec2 { x: 0, y: 0 }),
            r.max == max,
    {
        Constraints { min: Vec2::zero(), max }
    }

    /// Anything from zero up, unbounded.
    pub fn none() -> (r: Constraints)
        ensures
            r.min == (Vec2 { x: 0, y: 0 }),
            r.max == (Vec2 { x: UNBOUNDED, y: UNBOUNDED }),
    {
        Constraints { min: Vec2::zero(), max: Vec2 { x: UNBOUNDED, y: UNBOUNDED } }
    }

    pub open spec fn spec_constrain(self, v: Vec2) -> Vec2 {
        Vec2 {
            x: clamp_axis(v.x as int, self.min.x as int, self.max.x as int) as i64,
            y: clamp_axis(v.y as int, self.min.y as int, self.max.y as int) as i64,
        }
    }

    /// The size closest to `v` that the constraints admit; where a minimum
    /// exceeds its maximum, the maximum is taken.
    pub fn constrain(&self, v: Vec2) -> (r: Vec2)
        ensures
            r == self.spec_constrain(v),
    {
        Vec2 {
            x: min_i64(max_i64(v.x, self.min.x), self.max.x),
            y: min_i64(max_i64(v.y, self.min.y), self.max.y),
        }
    }

    /// The size raised to the minimum, with no upper bound applied.
    pub fn constrain_min(&self, v: Vec2) -> (r: Vec2)
        ensures
            r == v.spec_max(self.min),
    {
        v.max(self.min)
    }
}

/// Where along one axis a box sits within the space around it.
#[derive(Clone, Copy, Debug, PartialEq, Eq, Structural)]
pub enum AxisAlign {
    Start,
    Center,
    End,
}

/// Half of a signed extent, rounded toward zero.
pub open spec fn half(v: int) -> int {
    if v >= 0 {
        v / 2
    } else {
        -((-v) / 2)
    }
}

impl AxisAlign {
    /// The offset of a box within `avail` spare room along this axis.
    pub open spec fn spec_share(self, avail: int) -> int {
        match self {
            AxisAlign::Start => 0,
            AxisAlign::Center => half(avail),
            AxisAlign::End => avail,
        }
    }

    pub fn share(self, avail: i64) -> (r: i64)
        ensures
            r == self.spec_share(avail as int),
    {
        match self {
            AxisAlign::Start => 0,
            AxisAlign::Center => {
                if avail >= 0 {
                    avail / 2
                } else if avail == i64::MIN {
                    -(i64::MAX / 2) - 1
                } else {
                    -((-avail) / 2)
                }
            },
            AxisAlign::End => avail,
        }
    }
}

/// A point of reference in a box, on both axes: a corner, an edge's middle,
/// or the centre.
#[derive(Clone, Copy, Debug, PartialEq, Eq, Structural)]
pub struct Alignment {
    pub x: AxisAlign,
    pub y: AxisAlign,
}

impl Alignment {
    pub fn new(x: AxisAlign, y: AxisAlign) -> (r: Alignment)
        ensures
            r.x == x,
            r.y == y,
    {
        Alignment { x, y }
    }

    pub open spec fn spec_top_left() -> Alignment {
        Alignment { x: AxisAlign::Start, y: AxisAlign::Start }
    }

    pub fn top_left() -> (r: Alignment)
        ensures
            r == Alignment::spec_top_left(),
    {
        Alignment { x: AxisAlign::Start, y: AxisAlign::Start }
    }

    pub fn top_center() -> (r: Alignment)
        ensures
            r.x == AxisAlign::Center,
            r.y == AxisAlign::Start,
    {
        Alignment { x: AxisAlign::Center, y: AxisAlign::Start }
    }

    pub fn center() -> (r: Alignment)
        ensures
            r.x == AxisAlign::Center,
            r.y == AxisAlign::Center,
    {
        Alignment { x: AxisAlign::Center, y: AxisAlign::Center }
    }

    pub fn bottom_left() -> (r: Alignment)
        ensures
            r.x == AxisAlign::Start,
            r.y == AxisAlign::End,
    {
        Alignment { x: AxisAlign::Start, y: AxisAlign::End }
    }

    pub open spec fn spec_bottom_right() -> Alignment {
        Alignment { x: AxisAlign::End, y: AxisAlign::End }
    }

    pub fn bottom_right() -> (r: Alignment)
        ensures
            r == Alignment::spec_bottom_right(),
    {
        Alignment { x: AxisAlign::End, y: AxisAlign::End }
    }

    /// The position of a box of size `inner` placed at this alignment within
    /// a box of size `outer` whose corner is at the origin.
    pub open spec fn spec_place(self, outer: Vec2, inner: Vec2) -> Vec2 {
        Vec2 {
            x: self.x.spec_share(sat(outer.x - inner.x)) as i64,
            y: self.y.spec_share(sat(outer.y - inner.y)) as i64,
        }
    }

    pub fn place(self, outer: Vec2, inner: Vec2) -> (r: Vec2)
        ensures
            r == self.spec_place(outer, inner),
    {
        Vec2 {
            x: self.x.share(sub_sat(outer.x, inner.x)),
            y: self.y.share(sub_sat(outer.y, inner.y)),
        }
    }
}

} // verus!
