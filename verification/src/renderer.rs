//! Renderer bookkeeping on plain values: per-tile sets of command indices,
//! kept as bit masks, and the pixel range that a coverage mask blends into.
use vstd::prelude::*;
use crate::tiling::min_int;
use vstd::std_specs::bits::{u64_trailing_zeros, axiom_u64_trailing_zeros};
use vstd::arithmetic::div_mod::lemma_fundamental_div_mod_converse;

verus! {

/// Bit `j` of `w` is set.
pub open spec fn bit(w: u64, j: int) -> bool {
    (w >> (j as u64)) & 1u64 == 1u64
}

/// Index `k` is in the set whose mask words are `values`.
pub open spec fn mask_has(values: Seq<u64>, k: int) -> bool {
    0 <= k < 64 * values.len() && bit(values[k / 64], k % 64)
}

proof fn lemma_bit_or(w: u64, b: u64, j: u64)
    requires
        b < 64,
        j < 64,
    ensures
        ((w | (1u64 << b)) >> j) & 1u64 == 1u64 <==> ((w >> j) & 1u64 == 1u64 || j == b),
{
    assert(((w | (1u64 << b)) >> j) & 1u64 == 1u64 <==> ((w >> j) & 1u64 == 1u64 || j == b))
        by (bit_vector)
        requires
            b < 64,
            j < 64,
    ;
}

proof fn lemma_bit_clear(w: u64, b: u64, j: u64)
    requires
        b < 64,
        j < 64,
    ensures
        ((w & !(1u64 << b)) >> j) & 1u64 == 1u64 <==> ((w >> j) & 1u64 == 1u64 && j != b),
{
    assert(((w & !(1u64 << b)) >> j) & 1u64 == 1u64 <==> ((w >> j) & 1u64 == 1u64 && j != b))
        by (bit_vector)
        requires
            b < 64,
            j < 64,
    ;
}

proof fn lemma_clear_smaller(w: u64, b: u64)
    requires
        b < 64,
        (w >> b) & 1u64 == 1u64,
    ensures
        w & !(1u64 << b) < w,
{
    assert(w & !(1u64 << b) < w) by (bit_vector)
        requires
            b < 64,
            (w >> b) & 1u64 == 1u64,
    ;
}

proof fn lemma_zero_bits(w: u64)
    ensures
        w == 0 <==> forall|j: u64| j < 64 ==> #[trigger] ((w >> j) & 1u64) == 0u64,
{
    if w != 0 {
        axiom_u64_trailing_zeros(w);
        let t = u64_trailing_zeros(w) as u64;
        assert(((w >> t) & 1u64) == 1u64);
    } else {
        assert forall|j: u64| j < 64 implies #[trigger] ((w >> j) & 1u64) == 0u64 by {
            assert(((0u64 >> j) & 1u64) == 0u64) by (bit_vector);
        }
    }
}

proof fn lemma_split_index(k: int)
    requires
        0 <= k,
    ensures
        k == 64 * (k / 64) + k % 64,
        0 <= k % 64 < 64,
        0 <= k / 64,
{
}

proof fn lemma_join_index(w: int, j: int)
    requires
        0 <= w,
        0 <= j < 64,
    ensures
        (64 * w + j) / 64 == w,
        (64 * w + j) % 64 == j,
{
    lemma_fundamental_div_mod_converse(64 * w + j, 64, w, j);
}

/// A set of command indices below `64 * values.len()`.
pub struct CommandMask {
    values: Vec<u64>,
}

impl CommandMask {
    /// The mask words.
    pub closed spec fn words(&self) -> Seq<u64> {
        self.values@
    }

    /// Whether index `k` is in the set.
    pub open spec fn has(&self, k: int) -> bool {
        mask_has(self.words(), k)
    }

    /// An empty set with room for the indices below `size` (rounded up to a
    /// multiple of 64).
    pub fn new(size: usize) -> (m: CommandMask)
        requires
            size + 63 <= usize::MAX,
        ensures
            m.words().len() == (size + 63) / 64,
            forall|k: int| !m.has(k),
    {
        let len = (size + 63) / 64;
        let mut values: Vec<u64> = Vec::new();
        let mut i: usize = 0;
        while i < len
            invariant
                0 <= i <= len,
                values@ == Seq::new(i as nat, |j: int| 0u64),
            decreases len - i,
        {
            values.push(0);
            i = i + 1;
            assert(values@ =~= Seq::new(i as nat, |j: int| 0u64));
        }
        let m = CommandMask { values };
        assert forall|k: int| !m.has(k) by {
            if 0 <= k < 64 * m.words().len() {
                lemma_split_index(k);
                let j = (k % 64) as u64;
                assert(((0u64 >> j) & 1u64) == 0u64) by (bit_vector);
            }
        }
        m
    }

    /// Whether `index` is below the indices the set has room for.
    pub fn has_room(&self, index: usize) -> (r: bool)
        ensures
            r == (index < 64 * self.words().len()),
    {
        index / 64 < self.values.len()
    }

    /// Adds `index` to the set.
    pub fn add_mut(&mut self, index: usize)
        requires
            index < 64 * old(self).words().len(),
        ensures
            final(self).words().len() == old(self).words().len(),
            forall|k: int| #[trigger] final(self).has(k) <==> (old(self).has(k) || k == index),
    {
        let b = (index as u64) % 64;
        let bit = 1u64 << b;
        let wi = index / 64;
        let w = self.values[wi];
        self.values.set(wi, w | bit);
        proof {
            lemma_split_index(index as int);
            assert forall|k: int| #[trigger] self.has(k) <==> (old(self).has(k) || k == index) by {
                if 0 <= k < 64 * self.values@.len() {
                    lemma_split_index(k);
                    let j = (k % 64) as u64;
                    if k / 64 == wi {
                        lemma_bit_or(w, b, j);
                    }
                }
            }
        }
    }

    /// Adds `index` to the set.
    pub fn add(&mut self, index: usize)
        requires
            index < 64 * old(self).words().len(),
        ensures
            final(self).words().len() == old(self).words().len(),
            forall|k: int| #[trigger] final(self).has(k) <==> (old(self).has(k) || k == index),
    {
        self.add_mut(index);
    }

    /// The indices in the set, in increasing order.
    pub fn iter(&self) -> (r: Vec<usize>)
        requires
            64 * self.words().len() <= usize::MAX,
        ensures
            forall|i: int, j: int| 0 <= i < j < r@.len() ==> r@[i] < r@[j],
            forall|i: int| 0 <= i < r@.len() ==> self.has(#[trigger] r@[i] as int),
            forall|k: int| self.has(k) ==> exists|i: int| 0 <= i < r@.len() && #[trigger] r@[i] == k,
    {
        let mut r: Vec<usize> = Vec::new();
        let n = self.values.len();
        let mut base: usize = 0;
        let mut wi: usize = 0;
        while wi < n
            invariant
                n == self.values@.len(),
                64 * n <= usize::MAX,
                0 <= wi <= n,
                base == 64 * wi,
                forall|i: int, j: int| 0 <= i < j < r@.len() ==> r@[i] < r@[j],
                forall|i: int| 0 <= i < r@.len() ==> r@[i] < base,
                forall|i: int| 0 <= i < r@.len() ==> self.has(#[trigger] r@[i] as int),
                forall|k: int|
                    0 <= k < base && self.has(k) ==> exists|i: int|
                        0 <= i < r@.len() && #[trigger] r@[i] == k,
            decreases n - wi,
        {
            let word = self.values[wi];
            let mut bits = word;
            let ghost mut pos: int = 0;
            while bits != 0
                invariant
                    n == self.values@.len(),
                    64 * n <= usize::MAX,
                    0 <= wi < n,
                    base == 64 * wi,
                    word == self.values@[wi as int],
                    0 <= pos <= 64,
                    forall|j: u64|
                        j < 64 ==> (#[trigger] ((bits >> j) & 1u64) == 1u64 <==> (((word >> j)
                            & 1u64) == 1u64 && j >= pos)),
                    forall|i: int, j: int| 0 <= i < j < r@.len() ==> r@[i] < r@[j],
                    forall|i: int| 0 <= i < r@.len() ==> r@[i] < base + pos,
                    forall|i: int| 0 <= i < r@.len() ==> self.has(#[trigger] r@[i] as int),
                    forall|k: int|
                        0 <= k < base + pos && self.has(k) ==> exists|i: int|
                            0 <= i < r@.len() && #[trigger] r@[i] == k,
                decreases bits,
            {
                proof {
                    axiom_u64_trailing_zeros(bits);
                }
                let offset = bits.trailing_zeros();
                let ghost o = offset as int;
                proof {
                    assert(o < 64);
                    assert(o >= pos) by {
                        if o < pos {
                            assert(((bits >> (o as u64)) & 1u64) == 1u64);
                        }
                    }
                    assert(((word >> (o as u64)) & 1u64) == 1u64);
                    lemma_join_index(wi as int, o);
                    assert(self.has(base + o));
                }
                let command_index = base + offset as usize;
                let ghost old_r = r@;
                r.push(command_index);
                let ghost old_bits = bits;
                proof {
                    lemma_clear_smaller(bits, offset as u64);
                }
                bits = bits & !(1u64 << (offset as u64));
                proof {
                    assert forall|j: u64| j < 64 implies (#[trigger] ((bits >> j) & 1u64) == 1u64
                        <==> (((word >> j) & 1u64) == 1u64 && j >= o + 1)) by {
                        lemma_bit_clear(old_bits, offset as u64, j);
                        if pos <= j < o {
                            assert(((old_bits >> j) & 1u64) == 0u64);
                        }
                    }
                    assert forall|k: int| 0 <= k < base + o + 1 && self.has(k) implies exists|i: int|
                        0 <= i < r@.len() && #[trigger] r@[i] == k by {
                        if k < base + pos {
                            let i = choose|i: int| 0 <= i < old_r.len() && old_r[i] == k;
                            assert(r@[i] == k);
                        } else if k == base + o {
                            assert(r@[old_r.len() as int] == k);
                        } else {
                            lemma_split_index(k);
                            lemma_join_index(wi as int, k - base);
                            let j = (k - base) as u64;
                            assert(((old_bits >> j) & 1u64) == 0u64);
                            assert(false);
                        }
                    }
                    pos = o + 1;
                }
            }
            proof {
                lemma_zero_bits(bits);
                assert forall|k: int| 0 <= k < base + 64 && self.has(k) implies exists|i: int|
                    0 <= i < r@.len() && #[trigger] r@[i] == k by {
                    if k >= base + pos {
                        lemma_split_index(k);
                        lemma_join_index(wi as int, k - base);
                        let j = (k - base) as u64;
                        assert(((bits >> j) & 1u64) == 0u64);
                        assert(false);
                    }
                }
            }
            base = base + 64;
            wi = wi + 1;
        }
        proof {
            assert forall|k: int| self.has(k) implies exists|i: int|
                0 <= i < r@.len() && #[trigger] r@[i] == k by {
                assert(0 <= k < base);
            }
        }
        r
    }
}


/// The index of tile `(x, y)` in a grid stored row by row, `tiles_x` tiles
/// to a row.
pub open spec fn grid_index(tiles_x: int, x: int, y: int) -> int {
    y * tiles_x + x
}

/// Index `t` is the index of some tile in the columns `begin_x..end_x` and
/// the rows `begin_y..end_y` of a grid `tiles_x` tiles wide.
pub open spec fn grid_covers(
    t: int,
    tiles_x: int,
    begin_x: int,
    begin_y: int,
    end_x: int,
    end_y: int,
) -> bool {
    exists|x: int, y: int|
        begin_x <= x < end_x && begin_y <= y < end_y && #[trigger] grid_index(tiles_x, x, y) == t
}

/// Adds `cmd_index` to the mask of every tile in the columns `begin[0]..end[0]`
/// and the rows `begin[1]..end[1]` of a grid `tiles_x` tiles wide, whose tile
/// `(x, y)` has the mask `masks[y * tiles_x + x]`. Every other mask is left as
/// it was.
pub fn fill_visible(
    masks: &mut Vec<CommandMask>,
    cmd_index: usize,
    begin: [u32; 2],
    end: [u32; 2],
    tiles_x: u32,
)
    requires
        begin[0] < end[0] && begin[1] < end[1] ==> (end[1] - 1) * tiles_x + end[0] <= old(
            masks,
        )@.len(),
        forall|t: int|
            0 <= t < old(masks)@.len() ==> cmd_index < 64 * (#[trigger] old(masks)@[t]).words().len(),
    ensures
        final(masks)@.len() == old(masks)@.len(),
        forall|t: int|
            0 <= t < final(masks)@.len() ==> (#[trigger] final(masks)@[t]).words().len()
                == old(masks)@[t].words().len(),
        forall|t: int, k: int|
            0 <= t < final(masks)@.len() ==> (#[trigger] final(masks)@[t].has(k) <==> (
            old(masks)@[t].has(k) || (k == cmd_index && grid_covers(
                t,
                tiles_x as int,
                begin[0] as int,
                begin[1] as int,
                end[0] as int,
                end[1] as int,
            )))),
{
    let ghost before = masks@;
    let ghost tx = tiles_x as int;
    let ghost b0 = begin[0] as int;
    let ghost b1 = begin[1] as int;
    let ghost e0 = end[0] as int;
    let ghost e1 = end[1] as int;
    let mut y: u32 = begin[1];
    while y < end[1]
        invariant
            tx == tiles_x,
            b0 == begin[0],
            b1 == begin[1],
            e0 == end[0],
            e1 == end[1],
            b0 < e0 && b1 < e1 ==> (e1 - 1) * tx + e0 <= before.len(),
            b1 <= y,
            y <= e1 || y == b1,
            masks@.len() == before.len(),
            forall|t: int|
                0 <= t < before.len() ==> cmd_index < 64 * (#[trigger] before[t]).words().len(),
            forall|t: int|
                0 <= t < masks@.len() ==> (#[trigger] masks@[t]).words().len()
                    == before[t].words().len(),
            forall|t: int, k: int|
                0 <= t < masks@.len() ==> (#[trigger] masks@[t].has(k) <==> (before[t].has(k) || (
                k == cmd_index && grid_covers(t, tx, b0, b1, e0, y as int)))),
        decreases end[1] - y,
    {
        let mut x: u32 = begin[0];
        while x < end[0]
            invariant
                tx == tiles_x,
                b0 == begin[0],
                b1 == begin[1],
                e0 == end[0],
                e1 == end[1],
                b0 < e0 && b1 < e1 ==> (e1 - 1) * tx + e0 <= before.len(),
                b1 <= y < e1,
                b0 <= x,
                x <= e0 || x == b0,
                masks@.len() == before.len(),
                forall|t: int|
                    0 <= t < before.len() ==> cmd_index < 64 * (#[trigger] before[t]).words().len(),
                forall|t: int|
                    0 <= t < masks@.len() ==> (#[trigger] masks@[t]).words().len()
                        == before[t].words().len(),
                forall|t: int, k: int|
                    0 <= t < masks@.len() ==> (#[trigger] masks@[t].has(k) <==> (before[t].has(k)
                        || (k == cmd_index && (grid_covers(t, tx, b0, b1, e0, y as int)
                        || grid_covers(t, tx, b0, y as int, x as int, y + 1))))),
            decreases end[0] - x,
        {
            proof {
                assert(y * tx + x < (e1 - 1) * tx + e0) by (nonlinear_arith)
                    requires
                        y <= e1 - 1,
                        x < e0,
                        tx >= 0,
                ;
                assert(0 <= y * tx) by (nonlinear_arith)
                    requires
                        0 <= y,
                        0 <= tx,
                ;
            }
            let count = masks.len();
            let t: usize = (y as usize) * (tiles_x as usize) + (x as usize);
            assert(t < count);
            let ghost prev = masks@;
            masks[t].add(cmd_index);
            proof {
                assert(grid_index(tx, x as int, y as int) == t);
                assert forall|u: int, k: int| 0 <= u < masks@.len() implies (
                    #[trigger] masks@[u].has(k) <==> (before[u].has(k) || (k == cmd_index && (
                    grid_covers(u, tx, b0, b1, e0, y as int) || grid_covers(
                        u,
                        tx,
                        b0,
                        y as int,
                        x + 1,
                        y + 1,
                    ))))) by {
                    if grid_covers(u, tx, b0, y as int, x + 1, y + 1) && u != t {
                        let (xx, yy) = choose|xx: int, yy: int|
                            b0 <= xx < x + 1 && y <= yy < y + 1 && #[trigger] grid_index(tx, xx, yy)
                                == u;
                        assert(xx != x);
                        assert(grid_covers(u, tx, b0, y as int, x as int, y + 1));
                    }
                    if grid_covers(u, tx, b0, y as int, x as int, y + 1) {
                        let (xx, yy) = choose|xx: int, yy: int|
                            b0 <= xx < x && y <= yy < y + 1 && #[trigger] grid_index(tx, xx, yy)
                                == u;
                        assert(grid_covers(u, tx, b0, y as int, x + 1, y + 1));
                    }
                    if u != t {
                        assert(masks@[u] == prev[u]);
                    }
                }
            }
            x = x + 1;
        }
        proof {
            assert forall|u: int, k: int| 0 <= u < masks@.len() implies (
                #[trigger] masks@[u].has(k) <==> (before[u].has(k) || (k == cmd_index && grid_covers(
                    u,
                    tx,
                    b0,
                    b1,
                    e0,
                    y + 1,
                )))) by {
                if grid_covers(u, tx, b0, b1, e0, y + 1) {
                    let (xx, yy) = choose|xx: int, yy: int|
                        b0 <= xx < e0 && b1 <= yy < y + 1 && #[trigger] grid_index(tx, xx, yy) == u;
                    if yy < y {
                        assert(grid_covers(u, tx, b0, b1, e0, y as int));
                    } else {
                        assert(grid_covers(u, tx, b0, y as int, x as int, y + 1));
                    }
                }
                if grid_covers(u, tx, b0, b1, e0, y as int) {
                    let (xx, yy) = choose|xx: int, yy: int|
                        b0 <= xx < e0 && b1 <= yy < y && #[trigger] grid_index(tx, xx, yy) == u;
                    assert(grid_covers(u, tx, b0, b1, e0, y + 1));
                }
                if grid_covers(u, tx, b0, y as int, x as int, y + 1) {
                    let (xx, yy) = choose|xx: int, yy: int|
                        b0 <= xx < x && y <= yy < y + 1 && #[trigger] grid_index(tx, xx, yy) == u;
                    assert(grid_covers(u, tx, b0, b1, e0, y + 1));
                }
            }
        }
        y = y + 1;
    }
    proof {
        assert forall|u: int, k: int| 0 <= u < masks@.len() implies (
            #[trigger] masks@[u].has(k) <==> (before[u].has(k) || (k == cmd_index && grid_covers(
                u,
                tx,
                b0,
                b1,
                e0,
                e1,
            )))) by {
            if grid_covers(u, tx, b0, b1, e0, e1) {
                let (xx, yy) = choose|xx: int, yy: int|
                    b0 <= xx < e0 && b1 <= yy < e1 && #[trigger] grid_index(tx, xx, yy) == u;
                assert(grid_covers(u, tx, b0, b1, e0, y as int));
            }
            if grid_covers(u, tx, b0, b1, e0, y as int) {
                let (xx, yy) = choose|xx: int, yy: int|
                    b0 <= xx < e0 && b1 <= yy < y && #[trigger] grid_index(tx, xx, yy) == u;
                assert(grid_covers(u, tx, b0, b1, e0, e1));
            }
        }
    }
}

/// `min(offset + extent, limit)`: where a run that starts at `offset` and is
/// `extent` long ends once it is cut at `limit`.
pub open spec fn clipped_end(offset: int, extent: int, limit: int) -> int {
    if offset + extent <= limit {
        offset + extent
    } else {
        limit
    }
}

/// The pixels that a coverage mask placed in a target covers: columns
/// `begin[0]..end[0]` and rows `begin[1]..end[1]` of the target, and the
/// groups `u0..u1` of `lanes` pixels each that hold those columns.
#[derive(Clone, Copy, Debug)]
pub struct BlitRange {
    pub begin: [u32; 2],
    pub end: [u32; 2],
    pub u0: u32,
    pub u1: u32,
}

/// The range of a target, `target_size[0]` groups of `lanes` pixels wide and
/// `target_size[1]` rows high, that a mask of `mask_size` pixels placed at
/// `offset` covers; `None` where the range is empty in a direction because
/// the mask starts right at the target's edge or has no extent there. The
/// horizontal ends of a non-empty range must fall on lane boundaries.
pub fn mask_blit_range(offset: [u32; 2], mask_size: [u32; 2], target_size: [u32; 2], lanes: u32) -> (r:
    Option<BlitRange>)
    requires
        lanes > 0,
        lanes * target_size[0] <= u32::MAX,
        offset[0] + mask_size[0] <= u32::MAX,
        offset[1] + mask_size[1] <= u32::MAX,
        offset[0] != clipped_end(offset[0] as int, mask_size[0] as int, lanes * target_size[0])
            && offset[1] != clipped_end(offset[1] as int, mask_size[1] as int, target_size[1] as int)
            ==> offset[0] % lanes == 0 && clipped_end(
            offset[0] as int,
            mask_size[0] as int,
            lanes * target_size[0],
        ) % lanes as int == 0,
    ensures
        r is None <==> (offset[0] == clipped_end(
            offset[0] as int,
            mask_size[0] as int,
            lanes * target_size[0],
        ) || offset[1] == clipped_end(offset[1] as int, mask_size[1] as int, target_size[1] as int)),
        r matches Some(b) ==> {
            &&& b.begin == offset
            &&& b.end[0] == clipped_end(offset[0] as int, mask_size[0] as int, lanes * target_size[0])
            &&& b.end[1] == clipped_end(offset[1] as int, mask_size[1] as int, target_size[1] as int)
            &&& b.u0 * lanes == b.begin[0]
            &&& b.u1 * lanes == b.end[0]
        },
{
    let width = lanes * target_size[0];
    let height = target_size[1];
    let x_end = if offset[0] + mask_size[0] <= width {
        offset[0] + mask_size[0]
    } else {
        width
    };
    let y_end = if offset[1] + mask_size[1] <= height {
        offset[1] + mask_size[1]
    } else {
        height
    };
    if offset[0] == x_end || offset[1] == y_end {
        return None;
    }
    let u0 = offset[0] / lanes;
    let u1 = x_end / lanes;
    proof {
        assert(u0 * lanes == offset[0]) by (nonlinear_arith)
            requires
                offset[0] % lanes == 0,
                u0 == offset[0] / lanes,
                lanes > 0,
        ;
        assert(u1 * lanes == x_end) by (nonlinear_arith)
            requires
                x_end % lanes == 0,
                u1 == x_end / lanes,
                lanes > 0,
        ;
    }
    Some(BlitRange { begin: offset, end: [x_end, y_end], u0, u1 })
}


/// The range of a target, `target_size[0]` groups of `lanes` pixels wide and
/// `target_size[1]` rows high, that a mask of `mask_size` pixels placed at
/// `offset` covers, with the lane groups that hold it, the first and last
/// possibly in part; `None` where the offset lies outside the target.
pub fn mask_blit_groups(offset: [u32; 2], mask_size: [u32; 2], target_size: [u32; 2], lanes: u32) -> (r:
    Option<BlitRange>)
    requires
        lanes > 0,
        lanes * target_size[0] <= u32::MAX,
        offset[0] < lanes * target_size[0] && offset[1] < target_size[1] ==> {
            &&& offset[0] + mask_size[0] <= u32::MAX
            &&& offset[1] + mask_size[1] <= u32::MAX
            &&& clipped_end(offset[0] as int, mask_size[0] as int, lanes * target_size[0]) + lanes
                - 1 <= u32::MAX
        },
    ensures
        r is None <==> (offset[0] >= lanes * target_size[0] || offset[1] >= target_size[1]),
        r matches Some(b) ==> {
            &&& b.begin == offset
            &&& b.end[0] == clipped_end(offset[0] as int, mask_size[0] as int, lanes * target_size[0])
            &&& b.end[1] == clipped_end(offset[1] as int, mask_size[1] as int, target_size[1] as int)
            &&& b.u0 == offset[0] / lanes
            &&& b.u1 == (b.end[0] + lanes - 1) / (lanes as int)
        },
{
    let width = lanes * target_size[0];
    let height = target_size[1];
    if offset[0] >= width || offset[1] >= height {
        return None;
    }
    let x_end = if offset[0] + mask_size[0] <= width {
        offset[0] + mask_size[0]
    } else {
        width
    };
    let y_end = if offset[1] + mask_size[1] <= height {
        offset[1] + mask_size[1]
    } else {
        height
    };
    let u0 = offset[0] / lanes;
    let u1 = (x_end + (lanes - 1)) / lanes;
    Some(BlitRange { begin: offset, end: [x_end, y_end], u0, u1 })
}

/// `max(a, b)`.
pub open spec fn max_int(a: int, b: int) -> int {
    if a >= b {
        a
    } else {
        b
    }
}

/// The part of a mask row that one group of `lanes` target pixels reads.
#[derive(Clone, Copy, Debug)]
pub struct LaneWindow {
    /// Mask column under the group's first lane; negative left of the mask.
    pub mask_x0: i32,
    /// Lane that mask column `x0` goes to.
    pub dx: usize,
    /// The mask columns the group reads: `x0..x1`.
    pub x0: usize,
    pub x1: usize,
    /// Whether the group reaches past either side of the mask.
    pub partial: bool,
}

/// Which mask columns the group of `lanes` target pixels starting at
/// column `x` reads, for a mask `mask_width` wide placed at column
/// `begin_x`, and which lane each column goes to.
pub fn lane_window(x: u32, begin_x: u32, lanes: u32, mask_width: u32) -> (w: LaneWindow)
    requires
        x <= i32::MAX,
        begin_x <= i32::MAX,
        lanes <= i32::MAX,
        mask_width <= i32::MAX,
        x - begin_x + lanes <= i32::MAX,
        begin_x < x + lanes,
    ensures
        w.mask_x0 == x - begin_x,
        w.partial == (w.mask_x0 < 0 || w.mask_x0 + lanes > mask_width),
        w.dx == max_int(-w.mask_x0, 0),
        w.x0 == max_int(w.mask_x0 as int, 0),
        w.x1 == min_int(w.mask_x0 + lanes, mask_width as int),
        w.x1 <= mask_width,
        // mask column `c` in `x0..x1` goes to lane `c - x0 + dx`, which is
        // `c - mask_x0` and below `lanes`.
        w.x0 - w.dx == w.mask_x0,
        w.x1 + w.dx <= w.x0 + lanes,
{
    let mask_x0: i32 = x as i32 - begin_x as i32;
    let mask_x1: i32 = mask_x0 + lanes as i32;
    let mw = mask_width as i32;
    let partial = mask_x0 < 0 || mask_x1 > mw;
    let dx: usize = if mask_x0 < 0 {
        (-mask_x0) as usize
    } else {
        0
    };
    let x0: usize = if mask_x0 > 0 {
        mask_x0 as usize
    } else {
        0
    };
    let lim = if mask_x1 < mw {
        mask_x1
    } else {
        mw
    };
    let x1: usize = lim as usize;
    LaneWindow { mask_x0, dx, x0, x1, partial }
}

} // verus!
