//! Curve pieces over an arbitrary point type.
//!
//! The arithmetic on points (offsetting, splitting, flattening) works on
//! floating-point coordinates and is not part of this crate; what stands here
//! is the shape of the pieces and the operations that only move points around.
use vstd::prelude::*;

verus! {

/// A straight line from `p0` to `p1`.
#[derive(Debug, Clone, Copy, PartialEq)]
pub struct Line<P> {
    pub p0: P,
    pub p1: P,
}

/// Builds a line from its end points.
pub fn line<P>(p0: P, p1: P) -> (l: Line<P>)
    ensures
        l == (Line { p0, p1 }),
{
    Line { p0, p1 }
}

impl<P: Copy> Line<P> {
    /// The same line traversed from `p1` to `p0`.
    pub open spec fn reversed(self) -> Line<P> {
        Line { p0: self.p1, p1: self.p0 }
    }

    /// The same line traversed in the other direction.
    pub fn rev(self) -> (r: Line<P>)
        ensures
            r == self.reversed(),
    {
        line(self.p1, self.p0)
    }
}

/// A quadratic Bézier curve with control point `p1`.
#[derive(Debug, Clone, Copy, PartialEq)]
pub struct Quad<P> {
    pub p0: P,
    pub p1: P,
    pub p2: P,
}

/// Builds a quadratic curve from its control points.
pub fn quad<P>(p0: P, p1: P, p2: P) -> (q: Quad<P>)
    ensures
        q == (Quad { p0, p1, p2 }),
{
    Quad { p0, p1, p2 }
}

impl<P: Copy> Quad<P> {
    /// The same curve traversed backwards.
    pub open spec fn reversed(self) -> Quad<P> {
        Quad { p0: self.p2, p1: self.p1, p2: self.p0 }
    }

    /// The same curve traversed backwards.
    pub fn rev(self) -> (r: Quad<P>)
        ensures
            r == self.reversed(),
    {
        quad(self.p2, self.p1, self.p0)
    }
}

/// A cubic Bézier curve with control points `p1` and `p2`.
#[derive(Debug, Clone, Copy, PartialEq)]
pub struct Cubic<P> {
    pub p0: P,
    pub p1: P,
    pub p2: P,
    pub p3: P,
}

/// Builds a cubic curve from its control points.
pub fn cubic<P>(p0: P, p1: P, p2: P, p3: P) -> (c: Cubic<P>)
    ensures
        c == (Cubic { p0, p1, p2, p3 }),
{
    Cubic { p0, p1, p2, p3 }
}

impl<P: Copy> Cubic<P> {
    /// The same curve traversed backwards.
    pub open spec fn reversed(self) -> Cubic<P> {
        Cubic { p0: self.p3, p1: self.p2, p2: self.p1, p3: self.p0 }
    }

    /// The same curve traversed backwards.
    pub fn rev(self) -> (r: Cubic<P>)
        ensures
            r == self.reversed(),
    {
        cubic(self.p3, self.p2, self.p1, self.p0)
    }
}

/// Reversing a piece twice gives the piece back.
pub proof fn lemma_rev_involutive<P: Copy>(l: Line<P>, q: Quad<P>, c: Cubic<P>)
    ensures
        l.reversed().reversed() == l,
        q.reversed().reversed() == q,
        c.reversed().reversed() == c,
{
}

} // verus!
