//! Points and axis-aligned rectangles of the screen.
//!
//! A rectangle holds the pixels `(x, y)` with `min.x <= x < max.x` and
//! `min.y <= y < max.y`: its `max` corner lies just outside of it.
use vstd::prelude::*;

verus! {

/// A pixel position.
#[derive(Debug, Clone, Copy, PartialEq, Eq, Hash, Structural)]
pub struct Point {
    pub x: i32,
    pub y: i32,
}

impl Point {
    pub fn new(x: i32, y: i32) -> (p: Point)
        ensures
            p.x == x,
            p.y == y,
    {
        Point { x, y }
    }
}

/// A direction along a line of text.
#[derive(Debug, Clone, Copy, PartialEq, Eq, Hash, Structural)]
pub enum LinearDir {
    Backward,
    Forward,
}

/// A direction through a cycle of pages or chapters.
#[derive(Debug, Clone, Copy, PartialEq, Eq, Hash, Structural)]
pub enum CycleDir {
    Next,
    Previous,
}

/// A half-open axis-aligned rectangle.
#[derive(Debug, Clone, Copy, PartialEq, Eq, Hash, Structural)]
pub struct Rectangle {
    pub min: Point,
    pub max: Point,
}

/// The smaller of two integers.
pub open spec fn min_int(a: int, b: int) -> int {
    if a <= b {
        a
    } else {
        b
    }
}

/// The larger of two integers.
pub open spec fn max_int(a: int, b: int) -> int {
    if a >= b {
        a
    } else {
        b
    }
}

/// The absolute value of an integer.
pub open spec fn abs_int(a: int) -> int {
    if a >= 0 {
        a
    } else {
        -a
    }
}

/// The value of a 32-bit unsigned integer read as a signed one.
pub open spec fn u32_as_i32(u: int) -> int {
    if u <= 0x7fff_ffff {
        u
    } else {
        u - 0x1_0000_0000
    }
}

/// A 32-bit unsigned integer read as a signed one, as `as i32` reads it.
pub fn wrap_i32(u: u32) -> (r: i32)
    ensures
        r == u32_as_i32(u as int),
{
    if u <= 0x7fff_ffff {
        u as i32
    } else {
        (u as i64 - 0x1_0000_0000i64) as i32
    }
}

/// Integer division that truncates toward zero, as Rust's `/` does.
pub open spec fn div_trunc(a: int, b: int) -> int {
    if a >= 0 {
        a / b
    } else {
        -((-a) / b)
    }
}

impl Rectangle {
    pub fn new(min: Point, max: Point) -> (r: Rectangle)
        ensures
            r.min == min,
            r.max == max,
    {
        Rectangle { min, max }
    }

    /// Neither side has a negative extent.
    pub open spec fn is_wf(self) -> bool {
        self.min.x <= self.max.x && self.min.y <= self.max.y
    }

    /// The width, taken modulo 2^32 as the 32-bit unsigned `width` returns it.
    pub open spec fn spec_width(self) -> int {
        (self.max.x - self.min.x) % 0x1_0000_0000
    }

    /// The height, taken modulo 2^32 as the 32-bit unsigned `height` returns it.
    pub open spec fn spec_height(self) -> int {
        (self.max.y - self.min.y) % 0x1_0000_0000
    }

    pub fn width(&self) -> (w: u32)
        ensures
            w == self.spec_width(),
            self.is_wf() ==> w == self.max.x - self.min.x,
    {
        let d: i64 = self.max.x as i64 - self.min.x as i64;
        if d >= 0 {
            d as u32
        } else {
            (d + 0x1_0000_0000i64) as u32
        }
    }

    pub fn height(&self) -> (h: u32)
        ensures
            h == self.spec_height(),
            self.is_wf() ==> h == self.max.y - self.min.y,
    {
        let d: i64 = self.max.y as i64 - self.min.y as i64;
        if d >= 0 {
            d as u32
        } else {
            (d + 0x1_0000_0000i64) as u32
        }
    }

    /// The pixel `pt` lies inside the rectangle.
    pub open spec fn spec_includes(self, pt: Point) -> bool {
        self.min.x <= pt.x < self.max.x && self.min.y <= pt.y < self.max.y
    }

    pub fn includes(&self, pt: Point) -> (b: bool)
        ensures
            b == self.spec_includes(pt),
    {
        self.min.x <= pt.x && pt.x < self.max.x && self.min.y <= pt.y && pt.y < self.max.y
    }

    /// `rect` lies within the bounds of the rectangle.
    pub open spec fn spec_contains(self, rect: Rectangle) -> bool {
        &&& self.min.x <= rect.min.x
        &&& rect.max.x <= self.max.x
        &&& self.min.y <= rect.min.y
        &&& rect.max.y <= self.max.y
    }

    pub fn contains(&self, rect: &Rectangle) -> (b: bool)
        ensures
            b == self.spec_contains(*rect),
    {
        rect.min.x >= self.min.x && rect.max.x <= self.max.x && rect.min.y >= self.min.y
            && rect.max.y <= self.max.y
    }

    /// The two rectangles share at least one pixel.
    pub open spec fn spec_overlaps(self, rect: Rectangle) -> bool {
        &&& self.min.x < rect.max.x
        &&& rect.min.x < self.max.x
        &&& self.min.y < rect.max.y
        &&& rect.min.y < self.max.y
    }

    pub fn overlaps(&self, rect: &Rectangle) -> (b: bool)
        ensures
            b == self.spec_overlaps(*rect),
    {
        self.min.x < rect.max.x && rect.min.x < self.max.x && self.min.y < rect.max.y && rect.min.y
            < self.max.y
    }

    /// The common part of two overlapping rectangles.
    pub open spec fn spec_meet(self, rect: Rectangle) -> Rectangle {
        Rectangle {
            min: Point {
                x: max_int(self.min.x as int, rect.min.x as int) as i32,
                y: max_int(self.min.y as int, rect.min.y as int) as i32,
            },
            max: Point {
                x: min_int(self.max.x as int, rect.max.x as int) as i32,
                y: min_int(self.max.y as int, rect.max.y as int) as i32,
            },
        }
    }

    /// The common part of the two rectangles, where they overlap.
    pub open spec fn spec_intersection(self, rect: Rectangle) -> Option<Rectangle> {
        if self.spec_overlaps(rect) {
            Some(self.spec_meet(rect))
        } else {
            None
        }
    }

    pub fn intersection(&self, rect: &Rectangle) -> (r: Option<Rectangle>)
        ensures
            r == self.spec_intersection(*rect),
    {
        if self.overlaps(rect) {
            let x0 = if self.min.x >= rect.min.x { self.min.x } else { rect.min.x };
            let y0 = if self.min.y >= rect.min.y { self.min.y } else { rect.min.y };
            let x1 = if self.max.x <= rect.max.x { self.max.x } else { rect.max.x };
            let y1 = if self.max.y <= rect.max.y { self.max.y } else { rect.max.y };
            Some(Rectangle { min: Point { x: x0, y: y0 }, max: Point { x: x1, y: y1 } })
        } else {
            None
        }
    }

    /// The smallest rectangle that holds the bounds of both.
    pub open spec fn spec_absorbed(self, rect: Rectangle) -> Rectangle {
        Rectangle {
            min: Point {
                x: min_int(self.min.x as int, rect.min.x as int) as i32,
                y: min_int(self.min.y as int, rect.min.y as int) as i32,
            },
            max: Point {
                x: max_int(self.max.x as int, rect.max.x as int) as i32,
                y: max_int(self.max.y as int, rect.max.y as int) as i32,
            },
        }
    }

    /// Grows the rectangle so that it also holds the bounds of `rect`.
    pub fn absorb(&mut self, rect: &Rectangle)
        ensures
            *final(self) == old(self).spec_absorbed(*rect),
    {
        if self.min.x > rect.min.x {
            self.min.x = rect.min.x;
        }
        if self.max.x < rect.max.x {
            self.max.x = rect.max.x;
        }
        if self.min.y > rect.min.y {
            self.min.y = rect.min.y;
        }
        if self.max.y < rect.max.y {
            self.max.y = rect.max.y;
        }
    }

    /// A third of the smallest side of the two rectangles, as `extends`
    /// computes it from 32-bit values.
    pub open spec fn extension_margin(self, rect: Rectangle) -> int {
        let m = min_int(
            min_int(self.spec_width(), self.spec_height()),
            min_int(rect.spec_width(), rect.spec_height()),
        );
        div_trunc(u32_as_i32(m), 3)
    }

    /// `rect` sits just above or below the rectangle with nearly the same
    /// horizontal bounds, or just beside it with nearly the same vertical
    /// bounds, where "nearly" allows a third of the smallest side.
    pub open spec fn spec_extends(self, rect: Rectangle) -> bool {
        let d = self.extension_margin(rect);
        ||| (abs_int(self.min.y - rect.max.y) <= d || abs_int(rect.min.y - self.max.y) <= d)
            && abs_int(self.min.x - rect.min.x) <= d && abs_int(self.max.x - rect.max.x) <= d
        ||| (abs_int(self.min.x - rect.max.x) <= d || abs_int(rect.min.x - self.max.x) <= d)
            && abs_int(self.min.y - rect.min.y) <= d && abs_int(self.max.y - rect.max.y) <= d
    }

    /// The differences between sides are taken exactly, in 64 bits.
    pub fn extends(&self, rect: &Rectangle) -> (b: bool)
        ensures
            b == self.spec_extends(*rect),
    {
        let w0 = self.width();
        let h0 = self.height();
        let w1 = rect.width();
        let h1 = rect.height();
        let a = if w0 <= h0 { w0 } else { h0 };
        let b = if w1 <= h1 { w1 } else { h1 };
        let m = if a <= b { a } else { b };
        let dmin: i64 = if m <= 0x7fff_ffff {
            (m / 3) as i64
        } else {
            -(((0x1_0000_0000u64 - m as u64) / 3) as i64)
        };
        let d1: i64 = abs_i64(self.min.y as i64 - rect.max.y as i64);
        let d2: i64 = abs_i64(rect.min.y as i64 - self.max.y as i64);
        let d3: i64 = abs_i64(self.min.x as i64 - rect.min.x as i64);
        let d4: i64 = abs_i64(self.max.x as i64 - rect.max.x as i64);
        let d5: i64 = abs_i64(self.min.x as i64 - rect.max.x as i64);
        let d6: i64 = abs_i64(rect.min.x as i64 - self.max.x as i64);
        let d7: i64 = abs_i64(self.min.y as i64 - rect.min.y as i64);
        let d8: i64 = abs_i64(self.max.y as i64 - rect.max.y as i64);
        (d1 <= dmin || d2 <= dmin) && d3 <= dmin && d4 <= dmin || (d5 <= dmin || d6 <= dmin) && d7
            <= dmin && d8 <= dmin
    }
}

fn abs_i64(a: i64) -> (r: i64)
    requires
        a > i64::MIN,
    ensures
        r == abs_int(a as int),
{
    if a >= 0 {
        a
    } else {
        -a
    }
}

/// Overlapping is symmetric.
pub proof fn lemma_overlaps_symmetric(a: Rectangle, b: Rectangle)
    ensures
        a.spec_overlaps(b) == b.spec_overlaps(a),
{
}

/// The intersection does not depend on the order of its operands, it
/// exists exactly when the rectangles overlap, and a pixel lies in it
/// exactly when it lies in both rectangles.
pub proof fn lemma_intersection(a: Rectangle, b: Rectangle, pt: Point)
    ensures
        a.spec_intersection(b) == b.spec_intersection(a),
        a.spec_intersection(b) is Some <==> a.spec_overlaps(b),
        a.spec_overlaps(b) ==> a.spec_contains(a.spec_meet(b)),
        a.spec_overlaps(b) ==> b.spec_contains(a.spec_meet(b)),
        a.is_wf() && b.is_wf() && a.spec_overlaps(b) ==> a.spec_meet(b).is_wf(),
        a.spec_overlaps(b) ==> (a.spec_meet(b).spec_includes(pt) <==> a.spec_includes(pt)
            && b.spec_includes(pt)),
{
    let r = a.spec_meet(b);
    assert(r.min.x == max_int(a.min.x as int, b.min.x as int));
    assert(r.min.y == max_int(a.min.y as int, b.min.y as int));
    assert(r.max.x == min_int(a.max.x as int, b.max.x as int));
    assert(r.max.y == min_int(a.max.y as int, b.max.y as int));
}

/// A rectangle holds itself, and holding is transitive.
pub proof fn lemma_contains_order(a: Rectangle, b: Rectangle, c: Rectangle)
    ensures
        a.spec_contains(a),
        a.spec_contains(b) && b.spec_contains(c) ==> a.spec_contains(c),
{
}

/// A rectangle that holds another also holds every pixel of it.
pub proof fn lemma_contains_includes(a: Rectangle, b: Rectangle, pt: Point)
    requires
        a.spec_contains(b),
        b.spec_includes(pt),
    ensures
        a.spec_includes(pt),
{
}

/// Absorbing yields a rectangle that holds both operands and is the
/// smallest one that does.
pub proof fn lemma_absorbed(a: Rectangle, b: Rectangle, c: Rectangle)
    ensures
        a.spec_absorbed(b).spec_contains(a),
        a.spec_absorbed(b).spec_contains(b),
        a.spec_absorbed(b) == b.spec_absorbed(a),
        c.spec_contains(a) && c.spec_contains(b) ==> c.spec_contains(a.spec_absorbed(b)),
{
}

} // verus!
