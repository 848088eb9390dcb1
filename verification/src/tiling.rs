//! Windows into row-major pixel buffers, and the split of an image into
//! tiles.
use vstd::prelude::*;
use vstd::arithmetic::div_mod::lemma_fundamental_div_mod_converse;

verus! {

/// A window into a row-major pixel buffer: pixel `(x, y)` of the window is
/// element `offset + y * stride + x` of the buffer, and the window spans
/// `len` elements from `offset`.
#[derive(Clone, Copy, Debug)]
pub struct ImgMut {
    pub offset: usize,
    pub len: usize,
    pub size: [u32; 2],
    pub stride: usize,
}

/// The span of a `w x h` window with row stride `stride`: from its first
/// pixel to the end of its last row.
pub open spec fn span_len(w: int, h: int, stride: int) -> int {
    if h > 0 {
        w + (h - 1) * stride
    } else {
        0
    }
}

/// The smallest number of `ts`-sized steps that cover `n`.
pub open spec fn ceil_div(n: int, ts: int) -> int {
    (n + ts - 1) / ts
}

/// `a` or `b`, whichever is smaller.
pub open spec fn min_int(a: int, b: int) -> int {
    if a <= b {
        a
    } else {
        b
    }
}

/// The first corner of tile `(x, y)` for tiles of side `ts`.
pub open spec fn tile_begin(ts: int, x: int, y: int) -> (int, int) {
    (x * ts, y * ts)
}

/// The end corner of tile `(x, y)` for tiles of side `ts` over a `w x h`
/// image: the next tile's corner, or the image's edge.
pub open spec fn tile_end(w: int, h: int, ts: int, x: int, y: int) -> (int, int) {
    (min_int(x * ts + ts, w), min_int(y * ts + ts, h))
}

/// Tile `(x, y)` holds pixel `(px, py)`.
pub open spec fn tile_holds(w: int, h: int, ts: int, x: int, y: int, px: int, py: int) -> bool {
    let (bx, by) = tile_begin(ts, x, y);
    let (ex, ey) = tile_end(w, h, ts, x, y);
    bx <= px < ex && by <= py < ey
}

/// Every pixel of a `w x h` image lies in exactly one of the
/// `ceil(w / ts) x ceil(h / ts)` tiles of side `ts`: the tile at
/// `(px / ts, py / ts)`.
pub proof fn lemma_tiles_partition(w: int, h: int, ts: int, px: int, py: int)
    requires
        ts > 0,
        0 <= px < w,
        0 <= py < h,
    ensures
        0 <= px / ts < ceil_div(w, ts),
        0 <= py / ts < ceil_div(h, ts),
        tile_holds(w, h, ts, px / ts, py / ts, px, py),
        forall|x: int, y: int|
            0 <= x < ceil_div(w, ts) && 0 <= y < ceil_div(h, ts) && #[trigger] tile_holds(
                w,
                h,
                ts,
                x,
                y,
                px,
                py,
            ) ==> x == px / ts && y == py / ts,
{
    lemma_axis(w, ts, px);
    lemma_axis(h, ts, py);
    assert forall|x: int, y: int|
        0 <= x < ceil_div(w, ts) && 0 <= y < ceil_div(h, ts) && #[trigger] tile_holds(
            w,
            h,
            ts,
            x,
            y,
            px,
            py,
        ) implies x == px / ts && y == py / ts by {
        lemma_axis_unique(ts, x, px);
        lemma_axis_unique(ts, y, py);
    }
}

/// Distinct tiles of a `w x h` image stored with row stride `stride` (at
/// least `w`) own distinct buffer elements: a pixel of one tile and a pixel
/// of another never share an index.
pub proof fn lemma_tiles_disjoint(
    w: int,
    h: int,
    ts: int,
    stride: int,
    x1: int,
    y1: int,
    x2: int,
    y2: int,
    px1: int,
    py1: int,
    px2: int,
    py2: int,
)
    requires
        ts > 0,
        w <= stride,
        0 <= x1 < ceil_div(w, ts) && 0 <= y1 < ceil_div(h, ts),
        0 <= x2 < ceil_div(w, ts) && 0 <= y2 < ceil_div(h, ts),
        x1 != x2 || y1 != y2,
        0 <= px1 < w && 0 <= py1 < h && tile_holds(w, h, ts, x1, y1, px1, py1),
        0 <= px2 < w && 0 <= py2 < h && tile_holds(w, h, ts, x2, y2, px2, py2),
    ensures
        py1 * stride + px1 != py2 * stride + px2,
{
    if py1 * stride + px1 == py2 * stride + px2 {
        crate::image::lemma_index_unique(px1, py1, px2, py2, stride);
        lemma_tiles_partition(w, h, ts, px1, py1);
    }
}

proof fn lemma_axis(w: int, ts: int, p: int)
    requires
        ts > 0,
        0 <= p < w,
    ensures
        0 <= p / ts < ceil_div(w, ts),
        (p / ts) * ts <= p < (p / ts) * ts + ts,
{
    let q = p / ts;
    assert(q * ts <= p < q * ts + ts) by (nonlinear_arith)
        requires
            q == p / ts,
            ts > 0,
            p >= 0,
    ;
    assert(0 <= q) by (nonlinear_arith)
        requires
            q == p / ts,
            ts > 0,
            p >= 0,
    ;
    assert(q < ceil_div(w, ts)) by (nonlinear_arith)
        requires
            q * ts <= p,
            p < w,
            ts > 0,
            ceil_div(w, ts) == (w + ts - 1) / ts,
    ;
}

proof fn lemma_axis_unique(ts: int, x: int, p: int)
    requires
        ts > 0,
        0 <= x,
        x * ts <= p < x * ts + ts,
    ensures
        x == p / ts,
{
    lemma_fundamental_div_mod_converse(p, ts, x, p - x * ts);
}

/// One tile: the window onto its pixels and its corners in the image.
#[derive(Clone, Copy, Debug)]
pub struct Tile {
    pub img: ImgMut,
    pub begin: [u32; 2],
    pub end: [u32; 2],
}

impl ImgMut {
    /// The window's rows fit in its span: the stride is at least the width
    /// and the last row ends within `len`.
    pub open spec fn wf(&self) -> bool {
        &&& self.stride >= self.size[0]
        &&& self.size[1] > 0 ==> self.len >= (self.size[1] - 1) * self.stride + self.size[0]
        &&& self.offset + self.len <= usize::MAX
    }

    /// The window's last row ends within its span, and the span fits in
    /// memory.
    pub open spec fn span_fits(&self) -> bool {
        &&& self.size[0] > 0 && self.size[1] > 0 ==> (self.size[1] - 1) * self.stride
            + self.size[0] <= self.len
        &&& self.offset + self.len <= usize::MAX
    }

    /// The buffer element of pixel `(x, y)`.
    pub open spec fn index_of(&self, x: int, y: int) -> int {
        self.offset + y * self.stride + x
    }

    /// A window onto a whole `size[0] x size[1]` image stored row by row.
    pub fn new(size: [u32; 2]) -> (r: ImgMut)
        requires
            size[0] * size[1] <= usize::MAX,
        ensures
            r.wf(),
            r.offset == 0,
            r.len == size[0] * size[1],
            r.size == size,
            r.stride == size[0],
    {
        let w = size[0] as usize;
        let h = size[1] as usize;
        proof {
            if h > 0 {
                assert((h - 1) * w + w == w * h) by (nonlinear_arith);
            }
        }
        ImgMut { offset: 0, len: w * h, size, stride: w }
    }

    /// Width and height.
    pub fn size(&self) -> (r: [u32; 2])
        ensures
            r == self.size,
    {
        self.size
    }

    /// The number of columns.
    pub fn width(&self) -> (r: u32)
        ensures
            r == self.size[0],
    {
        self.size[0]
    }

    /// The number of rows.
    pub fn height(&self) -> (r: u32)
        ensures
            r == self.size[1],
    {
        self.size[1]
    }

    /// The distance in elements from one row to the next.
    pub fn stride(&self) -> (r: usize)
        ensures
            r == self.stride,
    {
        self.stride
    }

    /// Shrinks the window to `new_size`; its span becomes `new_size[0] *
    /// new_size[1]` elements, whatever the stride.
    pub fn truncate(&mut self, new_size: [u32; 2])
        requires
            new_size[0] <= old(self).size[0],
            new_size[1] <= old(self).size[1],
            new_size[0] * new_size[1] <= u32::MAX,
        ensures
            final(self).size == new_size,
            final(self).len == new_size[0] * new_size[1],
            final(self).offset == old(self).offset,
            final(self).stride == old(self).stride,
    {
        self.len = (new_size[0] * new_size[1]) as usize;
        self.size = new_size;
    }

    /// The window onto the pixels from `begin` up to (not including) `end`,
    /// whose span must lie within this window's span.
    pub fn sub_view(&self, begin: [u32; 2], end: [u32; 2]) -> (r: ImgMut)
        requires
            begin[0] <= end[0] <= self.size[0],
            begin[1] <= end[1] <= self.size[1],
            begin[1] * self.stride + begin[0] + span_len(
                end[0] - begin[0],
                end[1] - begin[1],
                self.stride as int,
            ) <= self.len,
            self.offset + self.len <= usize::MAX,
        ensures
            r.span_fits(),
            r.stride >= r.size[0] ==> r.wf(),
            r.size == [(end[0] - begin[0]) as u32, (end[1] - begin[1]) as u32],
            r.stride == self.stride,
            r.offset == self.offset + begin[1] * self.stride + begin[0],
            r.len == span_len(r.size[0] as int, r.size[1] as int, self.stride as int),
            r.offset + r.len <= self.offset + self.len,
            forall|x: int, y: int|
                0 <= x < r.size[0] && 0 <= y < r.size[1] ==> #[trigger] r.index_of(x, y)
                    == self.index_of(begin[0] + x, begin[1] + y),
    {
        let size: [u32; 2] = [end[0] - begin[0], end[1] - begin[1]];
        let ghost s = self.stride as int;
        let ghost b1 = begin[1] as int;
        let ghost b0 = begin[0] as int;
        let ghost sy = size[1] as int;
        proof {
            assert(0 <= b1 * s) by (nonlinear_arith)
                requires
                    0 <= b1,
                    0 <= s,
            ;
            if sy > 0 {
                assert(0 <= (sy - 1) * s) by (nonlinear_arith)
                    requires
                        0 <= sy - 1,
                        0 <= s,
                ;
            }
        }
        let index = (begin[1] as usize) * self.stride + begin[0] as usize;
        let mut len: usize = 0;
        if size[1] > 0 {
            len = len + size[0] as usize;
            len = len + (size[1] as usize - 1) * self.stride;
        }
        let r = ImgMut { offset: self.offset + index, len, size, stride: self.stride };
        proof {
            assert forall|x: int, y: int| 0 <= x < size[0] && 0 <= y < sy implies #[trigger] r.index_of(
                x,
                y,
            ) == self.index_of(b0 + x, b1 + y) by {
                assert(y * s + b1 * s == (b1 + y) * s) by (nonlinear_arith);
            }
        }
        r
    }

    /// The tile from `begin` up to `end`: its window and its corners.
    pub fn sub_tile(&self, begin: [u32; 2], end: [u32; 2]) -> (t: Tile)
        requires
            begin[0] <= end[0] <= self.size[0],
            begin[1] <= end[1] <= self.size[1],
            begin[1] * self.stride + begin[0] + span_len(
                end[0] - begin[0],
                end[1] - begin[1],
                self.stride as int,
            ) <= self.len,
            self.offset + self.len <= usize::MAX,
        ensures
            t.img.span_fits(),
            t.img.stride >= t.img.size[0] ==> t.img.wf(),
            t.begin == begin,
            t.end == end,
            t.img.size == [(end[0] - begin[0]) as u32, (end[1] - begin[1]) as u32],
            t.img.stride == self.stride,
            t.img.offset == self.offset + begin[1] * self.stride + begin[0],
            t.img.offset + t.img.len <= self.offset + self.len,
            t.img.len == span_len(t.img.size[0] as int, t.img.size[1] as int, self.stride as int),
    {
        Tile { img: self.sub_view(begin, end), begin, end }
    }

    /// Splits the window into tiles of side `tile_size`, row of tiles by row
    /// of tiles; returns the tiles and the number of tiles across and down.
    pub fn tiles(&self, tile_size: u32) -> (r: (Vec<Tile>, [u32; 2]))
        requires
            self.span_fits(),
            tile_size > 0,
            self.size[0] + tile_size - 1 <= u32::MAX,
            self.size[1] + tile_size - 1 <= u32::MAX,
        ensures
            r.1[0] == ceil_div(self.size[0] as int, tile_size as int),
            r.1[1] == ceil_div(self.size[1] as int, tile_size as int),
            r.0@.len() == r.1[0] * r.1[1],
            forall|i: int|
                0 <= i < r.0@.len() ==> {
                    let t = #[trigger] r.0@[i];
                    let x = i % (r.1[0] as int);
                    let y = i / (r.1[0] as int);
                    &&& (t.begin[0] as int, t.begin[1] as int) == tile_begin(tile_size as int, x, y)
                    &&& (t.end[0] as int, t.end[1] as int) == tile_end(
                        self.size[0] as int,
                        self.size[1] as int,
                        tile_size as int,
                        x,
                        y,
                    )
                    &&& t.img.span_fits()
                    &&& (self.stride >= self.size[0] ==> t.img.wf())
                    &&& t.img.stride == self.stride
                    &&& t.img.offset == self.offset + t.begin[1] * self.stride + t.begin[0]
                    &&& t.img.size == [(t.end[0] - t.begin[0]) as u32, (t.end[1] - t.begin[1]) as u32]
                    &&& t.img.len == span_len(t.img.size[0] as int, t.img.size[1] as int, self.stride as int)
                    &&& t.img.offset + t.img.len <= self.offset + self.len
                },
    {
        let ts = tile_size;
        let w = self.size[0];
        let h = self.size[1];
        let tx = (w + (ts - 1)) / ts;
        let ty = (h + (ts - 1)) / ts;
        let ghost tsi = ts as int;
        proof {
            assert(tx * tsi <= w + ts - 1) by (nonlinear_arith)
                requires
                    tx == (w + ts - 1) / tsi,
                    tsi > 0,
            ;
            assert(ty * tsi <= h + ts - 1) by (nonlinear_arith)
                requires
                    ty == (h + ts - 1) / tsi,
                    tsi > 0,
            ;
        }
        let mut tiles: Vec<Tile> = Vec::new();
        let mut y: u32 = 0;
        while y < ty
            invariant
                self.span_fits(),
                ts == tile_size,
                tsi == ts,
                ts > 0,
                w == self.size[0],
                h == self.size[1],
                w + ts - 1 <= u32::MAX,
                h + ts - 1 <= u32::MAX,
                tx == ceil_div(w as int, tsi),
                ty == ceil_div(h as int, tsi),
                tx * tsi <= w + ts - 1,
                ty * tsi <= h + ts - 1,
                0 <= y <= ty,
                tiles@.len() == y * tx,
                forall|i: int|
                    0 <= i < tiles@.len() ==> {
                        let t = #[trigger] tiles@[i];
                        let x = i % (tx as int);
                        let yy = i / (tx as int);
                        &&& (t.begin[0] as int, t.begin[1] as int) == tile_begin(tsi, x, yy)
                        &&& (t.end[0] as int, t.end[1] as int) == tile_end(
                            w as int,
                            h as int,
                            tsi,
                            x,
                            yy,
                        )
                        &&& t.img.span_fits()
                    &&& (self.stride >= self.size[0] ==> t.img.wf())
                        &&& t.img.stride == self.stride
                        &&& t.img.offset == self.offset + t.begin[1] * self.stride + t.begin[0]
                        &&& t.img.size == [(t.end[0] - t.begin[0]) as u32, (t.end[1] - t.begin[1]) as u32]
                        &&& t.img.len == span_len(t.img.size[0] as int, t.img.size[1] as int, self.stride as int)
                        &&& t.img.offset + t.img.len <= self.offset + self.len
                    },
            decreases ty - y,
        {
            let mut x: u32 = 0;
            proof {
                assert(y * tsi + tsi <= ty * tsi) by (nonlinear_arith)
                    requires
                        y < ty,
                        tsi > 0,
                ;
                assert(y * tsi < h) by (nonlinear_arith)
                    requires
                        y * tsi + tsi <= ty * tsi,
                        ty * tsi <= h + tsi - 1,
                ;
            }
            while x < tx
                invariant
                    self.span_fits(),
                    ts == tile_size,
                    tsi == ts,
                    ts > 0,
                    w == self.size[0],
                    h == self.size[1],
                    w + ts - 1 <= u32::MAX,
                    h + ts - 1 <= u32::MAX,
                    tx == ceil_div(w as int, tsi),
                    ty == ceil_div(h as int, tsi),
                    tx * tsi <= w + ts - 1,
                    ty * tsi <= h + ts - 1,
                    0 <= y < ty,
                    y * tsi < h,
                    0 <= x <= tx,
                    tiles@.len() == y * tx + x,
                    forall|i: int|
                        0 <= i < tiles@.len() ==> {
                            let t = #[trigger] tiles@[i];
                            let xx = i % (tx as int);
                            let yy = i / (tx as int);
                            &&& (t.begin[0] as int, t.begin[1] as int) == tile_begin(tsi, xx, yy)
                            &&& (t.end[0] as int, t.end[1] as int) == tile_end(
                                w as int,
                                h as int,
                                tsi,
                                xx,
                                yy,
                            )
                            &&& t.img.span_fits()
                    &&& (self.stride >= self.size[0] ==> t.img.wf())
                            &&& t.img.stride == self.stride
                            &&& t.img.offset == self.offset + t.begin[1] * self.stride
                                + t.begin[0]
                            &&& t.img.size == [(t.end[0] - t.begin[0]) as u32, (t.end[1] - t.begin[1]) as u32]
                            &&& t.img.len == span_len(t.img.size[0] as int, t.img.size[1] as int, self.stride as int)
                            &&& t.img.offset + t.img.len <= self.offset + self.len
                        },
                decreases tx - x,
            {
                proof {
                    assert(x * tsi + tsi <= tx * tsi) by (nonlinear_arith)
                        requires
                            x < tx,
                            tsi > 0,
                    ;
                    assert(x * tsi < w) by (nonlinear_arith)
                        requires
                            x * tsi + tsi <= tx * tsi,
                            tx * tsi <= w + tsi - 1,
                    ;
                }
                let bx = x * ts;
                let by = y * ts;
                let ex = if bx + ts <= w {
                    bx + ts
                } else {
                    w
                };
                let ey = if by + ts <= h {
                    by + ts
                } else {
                    h
                };
                proof {
                    let si = self.stride as int;
                    assert(by * si + bx + span_len(ex - bx, ey - by, si) == (ey - 1) * si + ex)
                        by (nonlinear_arith)
                        requires
                            by < ey,
                    ;
                    assert((ey - 1) * si + ex <= (h - 1) * si + w) by (nonlinear_arith)
                        requires
                            ey <= h,
                            ex <= w,
                            si >= 0,
                            ey >= 1,
                    ;
                }
                let tile = self.sub_tile([bx, by], [ex, ey]);
                let ghost old_tiles = tiles@;
                tiles.push(tile);
                proof {
                    let i = (y * tx + x) as int;
                    assert(i == y * tx + x);
                    lemma_fundamental_div_mod_converse(i, tx as int, y as int, x as int);
                    assert forall|k: int| 0 <= k < tiles@.len() implies {
                        let t = #[trigger] tiles@[k];
                        let xx = k % (tx as int);
                        let yy = k / (tx as int);
                        &&& (t.begin[0] as int, t.begin[1] as int) == tile_begin(tsi, xx, yy)
                        &&& (t.end[0] as int, t.end[1] as int) == tile_end(
                            w as int,
                            h as int,
                            tsi,
                            xx,
                            yy,
                        )
                        &&& t.img.span_fits()
                    &&& (self.stride >= self.size[0] ==> t.img.wf())
                        &&& t.img.stride == self.stride
                        &&& t.img.offset == self.offset + t.begin[1] * self.stride + t.begin[0]
                        &&& t.img.size == [(t.end[0] - t.begin[0]) as u32, (t.end[1] - t.begin[1]) as u32]
                        &&& t.img.len == span_len(t.img.size[0] as int, t.img.size[1] as int, self.stride as int)
                        &&& t.img.offset + t.img.len <= self.offset + self.len
                    } by {
                        if k < i {
                            assert(tiles@[k] == old_tiles[k]);
                        }
                    }
                }
                x = x + 1;
            }
            proof {
                assert((y + 1) * tx == y * tx + tx) by (nonlinear_arith);
            }
            y = y + 1;
        }
        proof {
            assert(ty * tx == tx * ty) by (nonlinear_arith);
        }
        (tiles, [tx, ty])
    }
}

} // verus!
