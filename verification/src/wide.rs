//! Lane masks: one boolean per lane of a short vector.
use vstd::prelude::*;

verus! {

/// Two signed 32-bit lanes.
pub type I32x2 = [i32; 2];

/// Some lane of `lanes` is set.
pub open spec fn any_lane(lanes: Seq<bool>) -> bool {
    exists|i: int| 0 <= i < lanes.len() && #[trigger] lanes[i]
}

/// Every lane of `lanes` is set.
pub open spec fn all_lanes(lanes: Seq<bool>) -> bool {
    forall|i: int| 0 <= i < lanes.len() ==> #[trigger] lanes[i]
}

/// The integer form of a mask lane: all bits set (-1) for a set lane, 0 otherwise.
pub open spec fn lane_int(b: bool) -> i32 {
    if b {
        -1i32
    } else {
        0i32
    }
}

fn any_of<const N: usize>(lanes: &[bool; N]) -> (r: bool)
    ensures
        r == any_lane(lanes@),
{
    let mut i: usize = 0;
    while i < N
        invariant
            0 <= i <= N,
            forall|j: int| 0 <= j < i ==> !(#[trigger] lanes@[j]),
        decreases N - i,
    {
        if lanes[i] {
            return true;
        }
        i = i + 1;
    }
    false
}

fn all_of<const N: usize>(lanes: &[bool; N]) -> (r: bool)
    ensures
        r == all_lanes(lanes@),
{
    let mut i: usize = 0;
    while i < N
        invariant
            0 <= i <= N,
            forall|j: int| 0 <= j < i ==> #[trigger] lanes@[j],
        decreases N - i,
    {
        if !lanes[i] {
            return false;
        }
        i = i + 1;
    }
    true
}

/// A mask of two lanes.
#[derive(Clone, Copy, Debug, PartialEq)]
pub struct B32x2(pub [bool; 2]);

impl B32x2 {
    /// Whether some lane is set.
    pub fn any(self) -> (r: bool)
        ensures
            r == any_lane(self.0@),
    {
        any_of(&self.0)
    }

    /// Whether every lane is set.
    pub fn all(self) -> (r: bool)
        ensures
            r == all_lanes(self.0@),
    {
        all_of(&self.0)
    }

    /// The lanes as integers: -1 for a set lane, 0 otherwise.
    pub fn to_int(self) -> (r: I32x2)
        ensures
            r@ == self.0@.map_values(|b: bool| lane_int(b)),
    {
        let r: I32x2 = [if self.0[0] { -1 } else { 0 }, if self.0[1] { -1 } else { 0 }];
        assert(r@ =~= self.0@.map_values(|b: bool| lane_int(b)));
        r
    }
}

/// A mask of four lanes.
#[derive(Clone, Copy, Debug, PartialEq)]
pub struct B32x4(pub [bool; 4]);

/// A mask of eight lanes.
#[derive(Clone, Copy, Debug, PartialEq)]
pub struct B32x8(pub [bool; 8]);

impl B32x8 {
    /// Whether some lane is set.
    pub fn any(self) -> (r: bool)
        ensures
            r == any_lane(self.0@),
    {
        any_of(&self.0)
    }

    /// Whether every lane is set.
    pub fn all(self) -> (r: bool)
        ensures
            r == all_lanes(self.0@),
    {
        all_of(&self.0)
    }
}

} // verus!
