//! Row-major images over an arbitrary pixel type, with a row stride that
//! may exceed the width once an image is truncated.
use vstd::prelude::*;
use vstd::arithmetic::div_mod::lemma_fundamental_div_mod_converse;

verus! {

/// A pixel run of `n` pixels from column `x` of row `y` lies inside the
/// rows of a `w x h` image stored with stride `s`.
pub proof fn lemma_run_in_bounds(x: int, y: int, n: int, w: int, h: int, s: int)
    requires
        0 <= x,
        0 <= n,
        x + n <= w,
        0 <= y < h,
        w <= s,
    ensures
        0 <= y * s,
        y * s + x + n <= (h - 1) * s + w,
{
    assert(0 <= y * s) by (nonlinear_arith)
        requires
            0 <= y,
            0 <= w <= s,
    ;
    assert(y * s <= (h - 1) * s) by (nonlinear_arith)
        requires
            y <= h - 1,
            0 <= s,
    ;
}

/// An owned image of `size[0] x size[1]` pixels, stored row by row.
pub struct Image<T> {
    data: Vec<T>,
    size: [u32; 2],
    stride: usize,
}

/// `len` copies of `clear` in `vec`, replacing what it held; returns the
/// stride of a `new_size` image, its width.
fn resize_and_clear_vec<T: Copy>(vec: &mut Vec<T>, new_size: [u32; 2], clear: T) -> (stride: usize)
    requires
        new_size[0] * new_size[1] <= usize::MAX,
    ensures
        stride == new_size[0],
        final(vec)@ == Seq::new((new_size[0] * new_size[1]) as nat, |i: int| clear),
{
    let w = new_size[0];
    let h = new_size[1];
    let new_len = (w as usize).checked_mul(h as usize).unwrap();
    vec.clear();
    let mut i: usize = 0;
    while i < new_len
        invariant
            0 <= i <= new_len,
            new_len == w * h,
            vec@ == Seq::new(i as nat, |j: int| clear),
        decreases new_len - i,
    {
        vec.push(clear);
        i = i + 1;
        assert(vec@ =~= Seq::new(i as nat, |j: int| clear));
    }
    w as usize
}

/// The rows of a `w x h` image stored back to back end at `w * h`.
proof fn lemma_rows_fill(w: int, h: int)
    requires
        0 <= w,
        0 < h,
    ensures
        (h - 1) * w + w == w * h,
{
    assert((h - 1) * w + w == w * h) by (nonlinear_arith);
}

impl<T: Copy> Image<T> {
    /// The pixels, row by row.
    pub closed spec fn pixels(&self) -> Seq<T> {
        self.data@
    }

    /// Width and height.
    pub closed spec fn size_view(&self) -> (nat, nat) {
        (self.size[0] as nat, self.size[1] as nat)
    }

    /// The number of pixels from one row to the next.
    pub closed spec fn stride_view(&self) -> nat {
        self.stride as nat
    }

    /// Row `y` starts at pixel `y * stride`, the stride is at least the
    /// width, and the last row ends within the pixels.
    pub open spec fn wf(&self) -> bool {
        &&& self.stride_view() >= self.size_view().0
        &&& self.size_view().1 > 0 ==> (self.size_view().1 - 1) * self.stride_view()
            + self.size_view().0 <= self.pixels().len()
    }

    /// The pixel at column `x`, row `y`.
    pub open spec fn at(&self, x: int, y: int) -> T {
        self.pixels()[y * self.stride_view() + x]
    }

    /// The array of `n` pixels read from `x, y` onwards.
    pub fn read_n<const N: usize>(&self, x: usize, y: usize) -> (r: [T; N])
        requires
            self.wf(),
            N > 0,
            x + N <= self.size_view().0,
            y < self.size_view().1,
        ensures
            r@ == self.pixels().subrange(
                y * self.stride_view() + x,
                y * self.stride_view() + x + N,
            ),
    {
        proof {
            lemma_run_in_bounds(
                x as int,
                y as int,
                N as int,
                self.size[0] as int,
                self.size[1] as int,
                self.stride as int,
            );
        }
        let len = self.data.len();
        assert(y * self.stride + x + N <= len);
        let base = y * self.stride + x;
        let mut r: [T; N] = [self.data[base]; N];
        let mut k: usize = 0;
        while k < N
            invariant
                self.wf(),
                base + N <= len,
                len == self.data@.len(),
                0 <= k <= N,
                forall|j: int| 0 <= j < k ==> r@[j] == self.data@[base + j],
            decreases N - k,
        {
            r[k] = self.data[base + k];
            k = k + 1;
        }
        assert(r@ =~= self.data@.subrange(base as int, base + N));
        r
    }
}


impl<T: Copy> Image<T> {
    /// A `size[0] x size[1]` image with every pixel set to `clear`.
    pub fn with_clear(size: [u32; 2], clear: T) -> (img: Image<T>)
        requires
            size[0] * size[1] <= usize::MAX,
        ensures
            img.wf(),
            img.size_view() == (size[0] as nat, size[1] as nat),
            img.pixels() == Seq::new((size[0] * size[1]) as nat, |i: int| clear),
            img.stride_view() == size[0],
    {
        let mut data: Vec<T> = Vec::new();
        let stride = resize_and_clear_vec(&mut data, size, clear);
        proof {
            if size[1] > 0 {
                lemma_rows_fill(size[0] as int, size[1] as int);
            }
        }
        Image { data, size, stride }
    }

    /// Width and height.
    pub fn size(&self) -> (r: [u32; 2])
        ensures
            r[0] == self.size_view().0,
            r[1] == self.size_view().1,
    {
        self.size
    }

    /// The number of columns.
    pub fn width(&self) -> (r: u32)
        ensures
            r == self.size_view().0,
    {
        self.size[0]
    }

    /// The number of rows.
    pub fn height(&self) -> (r: u32)
        ensures
            r == self.size_view().1,
    {
        self.size[1]
    }

    /// The number of pixels from one row to the next.
    pub fn stride(&self) -> (r: usize)
        ensures
            r == self.stride_view(),
    {
        self.stride
    }

    /// The pixels, row by row.
    pub fn data(&self) -> (r: &[T])
        ensures
            r@ == self.pixels(),
    {
        self.data.as_slice()
    }

    /// The pixel at column `x`, row `y`.
    pub fn pixel(&self, x: usize, y: usize) -> (r: T)
        requires
            self.wf(),
            x < self.size_view().0,
            y < self.size_view().1,
        ensures
            r == self.at(x as int, y as int),
    {
        proof {
            lemma_run_in_bounds(x as int, y as int, 1, self.size[0] as int, self.size[1] as int, self.stride as int);
        }
        let len = self.data.len();
        assert(y * self.stride + x < len);
        self.data[y * self.stride + x]
    }

    /// Sets the pixel at column `x`, row `y` to `v`.
    pub fn set_pixel(&mut self, x: usize, y: usize, v: T)
        requires
            old(self).wf(),
            x < old(self).size_view().0,
            y < old(self).size_view().1,
        ensures
            final(self).wf(),
            final(self).size_view() == old(self).size_view(),
            final(self).stride_view() == old(self).stride_view(),
            final(self).pixels() == old(self).pixels().update(
                y * old(self).stride_view() + x,
                v,
            ),
    {
        proof {
            lemma_run_in_bounds(x as int, y as int, 1, self.size[0] as int, self.size[1] as int, self.stride as int);
        }
        let len = self.data.len();
        assert(y * self.stride + x < len);
        let i = y * self.stride + x;
        self.data.set(i, v);
    }

    /// Writes the `N` pixels of `vs` from column `x` of row `y` onwards.
    pub fn write_n<const N: usize>(&mut self, x: usize, y: usize, vs: [T; N])
        requires
            old(self).wf(),
            x + N <= old(self).size_view().0,
            y < old(self).size_view().1,
        ensures
            final(self).wf(),
            final(self).size_view() == old(self).size_view(),
            final(self).stride_view() == old(self).stride_view(),
            final(self).pixels().len() == old(self).pixels().len(),
            forall|i: int|
                0 <= i < final(self).pixels().len() ==> #[trigger] final(self).pixels()[i] == if y
                    * old(self).stride_view() + x <= i < y * old(self).stride_view() + x + N {
                    vs@[i - (y * old(self).stride_view() + x)]
                } else {
                    old(self).pixels()[i]
                },
    {
        proof {
            lemma_run_in_bounds(
                x as int,
                y as int,
                N as int,
                self.size[0] as int,
                self.size[1] as int,
                self.stride as int,
            );
        }
        let len = self.data.len();
        assert(y * self.stride + x + N <= len);
        let base = y * self.stride + x;
        let mut k: usize = 0;
        while k < N
            invariant
                old(self).wf(),
                base == y * old(self).stride_view() + x,
                base + N <= len,
                len == self.data@.len(),
                self.size == old(self).size,
                self.stride == old(self).stride,
                0 <= k <= N,
                forall|i: int|
                    0 <= i < len ==> #[trigger] self.data@[i] == if base <= i < base + k {
                        vs@[i - base]
                    } else {
                        old(self).data@[i]
                    },
            decreases N - k,
        {
            self.data.set(base + k, vs[k]);
            k = k + 1;
        }
    }

    /// Sets every pixel to `color`.
    pub fn clear(&mut self, color: T)
        ensures
            final(self).size_view() == old(self).size_view(),
            final(self).stride_view() == old(self).stride_view(),
            final(self).pixels() == Seq::new(old(self).pixels().len(), |i: int| color),
    {
        let n = self.data.len();
        let mut i: usize = 0;
        while i < n
            invariant
                n == self.data@.len(),
                n == old(self).data@.len(),
                self.size == old(self).size,
                self.stride == old(self).stride,
                0 <= i <= n,
                forall|j: int| 0 <= j < i ==> #[trigger] self.data@[j] == color,
            decreases n - i,
        {
            self.data.set(i, color);
            i = i + 1;
        }
        assert(self.data@ =~= Seq::new(n as nat, |i: int| color));
    }

    /// Reshapes the image to `new_size` and sets every pixel to `clear`.
    pub fn resize_and_clear(&mut self, new_size: [u32; 2], clear: T)
        requires
            new_size[0] * new_size[1] <= usize::MAX,
        ensures
            final(self).wf(),
            final(self).size_view() == (new_size[0] as nat, new_size[1] as nat),
            final(self).pixels() == Seq::new((new_size[0] * new_size[1]) as nat, |i: int| clear),
            final(self).stride_view() == new_size[0],
    {
        self.stride = resize_and_clear_vec(&mut self.data, new_size, clear);
        self.size = new_size;
        proof {
            if new_size[1] > 0 {
                lemma_rows_fill(new_size[0] as int, new_size[1] as int);
            }
        }
    }

    /// Shrinks the image to its top-left `new_size` pixels, keeping the
    /// pixels and the stride.
    pub fn truncate(&mut self, new_size: [u32; 2])
        requires
            old(self).wf(),
            new_size[0] <= old(self).size_view().0,
            new_size[1] <= old(self).size_view().1,
        ensures
            final(self).wf(),
            final(self).size_view() == (new_size[0] as nat, new_size[1] as nat),
            final(self).stride_view() == old(self).stride_view(),
            final(self).pixels() == old(self).pixels(),
    {
        proof {
            if new_size[1] > 0 {
                let ss = self.stride as int;
                assert((new_size[1] - 1) * ss <= (self.size[1] - 1) * ss) by (nonlinear_arith)
                    requires
                        new_size[1] <= self.size[1],
                        0 <= ss,
                ;
            }
        }
        self.size = new_size;
    }
}

impl<T: Copy + Default> Image<T> {
    /// A `size[0] x size[1]` image with every pixel set to `T::default()`.
    pub fn new(size: [u32; 2]) -> (img: Image<T>)
        requires
            size[0] * size[1] <= usize::MAX,
        ensures
            img.wf(),
            img.size_view() == (size[0] as nat, size[1] as nat),
            img.pixels().len() == size[0] * size[1],
            forall|i: int|
                0 <= i < img.pixels().len() ==> call_ensures(T::default, (), #[trigger] img.pixels()[i]),
            forall|i: int, j: int|
                0 <= i < img.pixels().len() && 0 <= j < img.pixels().len() ==> #[trigger] img.pixels()[i]
                    == #[trigger] img.pixels()[j],
    {
        let d = T::default();
        Image::with_clear(size, d)
    }
}


/// `v` limited to `lo ..= hi`.
pub open spec fn clamp_int(v: int, lo: int, hi: int) -> int {
    if v < lo {
        lo
    } else if v > hi {
        hi
    } else {
        v
    }
}

fn clamp_i32(v: i32, lo: i32, hi: i32) -> (r: i32)
    requires
        lo <= hi,
    ensures
        r == clamp_int(v as int, lo as int, hi as int),
{
    if v < lo {
        lo
    } else if v > hi {
        hi
    } else {
        v
    }
}

/// `t` is element `k` of some result that `f` may give for `s`.
pub open spec fn expanded<U, T, const N: usize, F: Fn(U) -> [T; N]>(f: F, s: U, k: int, t: T) -> bool {
    exists|c: [T; N]| #[trigger] call_ensures(f, (s,), c) && c@[k] == t
}

/// Distinct pixels of a `w`-wide image have distinct indices.
pub proof fn lemma_index_unique(x1: int, y1: int, x2: int, y2: int, w: int)
    requires
        0 <= x1 < w,
        0 <= x2 < w,
        0 <= y1,
        0 <= y2,
        y1 * w + x1 == y2 * w + x2,
    ensures
        x1 == x2,
        y1 == y2,
{
    if y1 < y2 {
        assert(y1 * w + w <= y2 * w) by (nonlinear_arith)
            requires
                y1 < y2,
                0 <= w,
        ;
    } else if y2 < y1 {
        assert(y2 * w + w <= y1 * w) by (nonlinear_arith)
            requires
                y2 < y1,
                0 <= w,
        ;
    }
}

impl<T: Copy> Image<T> {
    fn write_run<const N: usize>(&mut self, i0: usize, c: [T; N], count: usize)
        requires
            count <= N,
            i0 + count <= old(self).data@.len(),
        ensures
            final(self).size == old(self).size,
            final(self).stride == old(self).stride,
            final(self).data@.len() == old(self).data@.len(),
            forall|i: int|
                0 <= i < final(self).data@.len() ==> #[trigger] final(self).data@[i] == if i0 <= i
                    < i0 + count {
                    c@[i - i0]
                } else {
                    old(self).data@[i]
                },
    {
        let len = self.data.len();
        let mut k: usize = 0;
        while k < count
            invariant
                len == self.data@.len(),
                count <= N,
                i0 + count <= self.data@.len(),
                self.data@.len() == old(self).data@.len(),
                self.size == old(self).size,
                self.stride == old(self).stride,
                0 <= k <= count,
                forall|i: int|
                    0 <= i < self.data@.len() ==> #[trigger] self.data@[i] == if i0 <= i < i0 + k {
                        c@[i - i0]
                    } else {
                        old(self).data@[i]
                    },
            decreases count - k,
        {
            self.data.set(i0 + k, c[k]);
            k = k + 1;
        }
    }

    /// Writes `src`, widened by `f` from one source pixel to `N` target
    /// pixels, into this image with its top-left corner at `to`, clipped to
    /// this image. The source is read from its own top-left corner, whatever
    /// part of the destination rectangle was clipped away.
    pub fn copy_expand<U: Copy, const N: usize, F: Fn(U) -> [T; N]>(
        &mut self,
        src: &Image<U>,
        to: [i32; 2],
        f: F,
    )
        requires
            old(self).wf(),
            src.wf(),
            0 < N <= i32::MAX,
            old(self).size_view().0 <= i32::MAX,
            old(self).size_view().1 <= i32::MAX,
            src.size_view().0 * N <= i32::MAX,
            src.size_view().1 <= i32::MAX,
            i32::MIN <= to[0] + src.size_view().0 * N <= i32::MAX,
            i32::MIN <= to[1] + src.size_view().1 <= i32::MAX,
            forall|u: U| call_requires(f, (u,)),
        ensures
            final(self).wf(),
            final(self).size_view() == old(self).size_view(),
            final(self).stride_view() == old(self).stride_view(),
            ({
                let (w, h) = old(self).size_view();
                let bx = clamp_int(to[0] as int, 0, w as int);
                let by = clamp_int(to[1] as int, 0, h as int);
                let ex = clamp_int(to[0] + src.size_view().0 * N, 0, w as int);
                let ey = clamp_int(to[1] + src.size_view().1, 0, h as int);
                forall|x: int, y: int|
                    0 <= x < w && 0 <= y < h ==> if bx <= x < ex && by <= y < ey {
                        expanded(f, src.at((x - bx) / (N as int), y - by), (x - bx) % (N as int), #[trigger] final(self).at(x, y))
                    } else {
                        final(self).at(x, y) == old(self).at(x, y)
                    }
            }),
    {
        let sw = self.size[0] as i32;
        let sh = self.size[1] as i32;
        let src_wu = src.width();
        proof {
            assert(src_wu <= src_wu * N) by (nonlinear_arith)
                requires
                    N >= 1,
            ;
        }
        let src_w = src_wu as i32;
        let n32 = N as i32;
        proof {
            assert(0 <= src_w * n32 <= i32::MAX) by (nonlinear_arith)
                requires
                    src_w == src.size_view().0,
                    n32 == N,
                    0 <= src_w,
                    0 < n32,
                    src.size_view().0 * N <= i32::MAX,
            ;
        }
        let size_x = src_w * n32;
        let size_y = src.height() as i32;

        let begin_x = clamp_i32(to[0], 0, sw) as usize;
        let begin_y = clamp_i32(to[1], 0, sh) as usize;
        let end_x = clamp_i32(to[0] + size_x, 0, sw) as usize;
        let end_y = clamp_i32(to[1] + size_y, 0, sh) as usize;

        let w = end_x - begin_x;
        let h = end_y - begin_y;

        let ghost ww = self.size[0] as int;
        let ghost hh = self.size[1] as int;
        let ghost nn = N as int;
        let ghost ss = self.stride as int;
        let stride = self.stride;
        let len = self.data.len();

        let mut dy: usize = 0;
        while dy < h
            invariant
                old(self).wf(),
                src.wf(),
                self.size == old(self).size,
                self.stride == old(self).stride,
                self.data@.len() == old(self).data@.len(),
                len == self.data@.len(),
                stride == ss,
                ss == old(self).stride_view(),
                ss >= ww,
                hh > 0 ==> (hh - 1) * ss + ww <= len,
                ww == old(self).size_view().0,
                hh == old(self).size_view().1,
                nn == N,
                0 < N,
                begin_x <= end_x <= ww,
                begin_y <= end_y <= hh,
                w == end_x - begin_x,
                h == end_y - begin_y,
                w <= src.size_view().0 * N,
                h <= src.size_view().1,
                forall|u: U| call_requires(f, (u,)),
                0 <= dy <= h,
                forall|x: int, y: int|
                    0 <= x < ww && 0 <= y < hh ==> if begin_x <= x < end_x && begin_y <= y < begin_y
                        + dy {
                        expanded(f, src.at((x - begin_x) / nn, y - begin_y), (x - begin_x) % nn, #[trigger] self.at(x, y))
                    } else {
                        self.at(x, y) == old(self).at(x, y)
                    },
            decreases h - dy,
        {
            proof {
                lemma_run_in_bounds(begin_x as int, (begin_y + dy) as int, w as int, ww, hh, ss);
            }
            let base = (begin_y + dy) * stride + begin_x;
            let mut u: usize = 0;
            let chunks = w / N;
            proof {
                assert(chunks * nn <= w) by (nonlinear_arith)
                    requires
                        chunks == (w as int) / nn,
                        0 < nn,
                        0 <= w,
                ;
            }
            while u < chunks
                invariant
                    old(self).wf(),
                    src.wf(),
                    self.size == old(self).size,
                    self.stride == old(self).stride,
                    self.data@.len() == old(self).data@.len(),
                    len == self.data@.len(),
                    stride == ss,
                    ss == old(self).stride_view(),
                ss == old(self).stride_view(),
                ss >= ww,
                hh > 0 ==> (hh - 1) * ss + ww <= len,
                    ww == old(self).size_view().0,
                    hh == old(self).size_view().1,
                    nn == N,
                    0 < N,
                    begin_x <= end_x <= ww,
                    begin_y <= end_y <= hh,
                    w == end_x - begin_x,
                    h == end_y - begin_y,
                    w <= src.size_view().0 * N,
                    h <= src.size_view().1,
                    0 <= dy < h,
                    base == (begin_y + dy) * ss + begin_x,
                    base + w <= len,
                    chunks == (w as int) / nn,
                    chunks * nn <= w,
                    forall|u: U| call_requires(f, (u,)),
                    0 <= u <= chunks,
                    forall|x: int, y: int|
                        0 <= x < ww && 0 <= y < hh ==> if (begin_x <= x < end_x && begin_y <= y
                            < begin_y + dy) || (y == begin_y + dy && begin_x <= x < begin_x + u
                            * nn) {
                            expanded(f, src.at((x - begin_x) / nn, y - begin_y), (x - begin_x) % nn, #[trigger] self.at(x, y))
                        } else {
                            self.at(x, y) == old(self).at(x, y)
                        },
                decreases chunks - u,
            {
                proof {
                    assert(u * nn + nn <= chunks * nn) by (nonlinear_arith)
                        requires
                            u < chunks,
                            0 < nn,
                    ;
                    assert(u < src.size_view().0) by (nonlinear_arith)
                        requires
                            u < chunks,
                            chunks * nn <= w,
                            w <= src.size_view().0 * nn,
                            0 < nn,
                    ;
                }
                let c = f(src.pixel(u, dy));
                let i0 = base + u * N;
                let ghost prev = *self;
                self.write_run(i0, c, N);
                proof {
                    assert forall|x: int, y: int| 0 <= x < ww && 0 <= y < hh implies if (begin_x
                        <= x < end_x && begin_y <= y < begin_y + dy) || (y == begin_y + dy
                        && begin_x <= x < begin_x + (u + 1) * nn) {
                        expanded(f, src.at((x - begin_x) / nn, y - begin_y), (x - begin_x) % nn, #[trigger] self.at(x, y))
                    } else {
                        self.at(x, y) == old(self).at(x, y)
                    } by {
                        let idx = y * ss + x;
                        assert(0 <= y * ss) by (nonlinear_arith)
                            requires
                                0 <= y,
                                0 <= ss,
                        ;
                        assert(idx < len) by {
                            lemma_run_in_bounds(x, y, 1, ww, hh, ss);
                        }
                        if i0 <= idx < i0 + nn {
                            let k = idx - i0;
                            let xx = begin_x + u * nn + k;
                            assert(xx < end_x) by (nonlinear_arith)
                                requires
                                    k < nn,
                                    u * nn + nn <= chunks * nn,
                                    chunks * nn <= w,
                                    xx == begin_x + u * nn + k,
                                    w == end_x - begin_x,
                            ;
                            lemma_index_unique(x, y, xx, (begin_y + dy) as int, ss);
                            lemma_fundamental_div_mod_converse(x - begin_x, nn, u as int, k);
                            assert((u + 1) * nn == u * nn + nn) by (nonlinear_arith);
                            assert(self.data@[idx] == c@[k]);
                            assert(call_ensures(f, (src.at(u as int, dy as int),), c));
                        } else {
                            assert(self.data@[idx] == prev.data@[idx]);
                            assert((u + 1) * nn == u * nn + nn) by (nonlinear_arith);
                            if y == begin_y + dy && begin_x + u * nn <= x < begin_x + (u + 1) * nn {
                                assert(idx == i0 + (x - begin_x - u * nn)) by (nonlinear_arith)
                                    requires
                                        idx == y * ss + x,
                                        y == begin_y + dy,
                                        i0 == base + u * nn,
                                        base == (begin_y + dy) * ss + begin_x,
                                ;
                            }
                            assert(prev.at(x, y) == self.at(x, y));
                        }
                    }
                }
                u = u + 1;
            }

            let rem = w % N;
            if rem > 0 {
                let u = w / N;
                proof {
                    assert(u * nn + rem == w) by (nonlinear_arith)
                        requires
                            u == (w as int) / nn,
                            rem == (w as int) % nn,
                            0 < nn,
                    ;
                    assert(u < src.size_view().0) by (nonlinear_arith)
                        requires
                            u * nn + rem == w,
                            0 < rem,
                            w <= src.size_view().0 * nn,
                            0 < nn,
                    ;
                }
                let c = f(src.pixel(u, dy));
                let i0 = base + u * N;
                let ghost prev = *self;
                self.write_run(i0, c, rem);
                proof {
                    assert forall|x: int, y: int| 0 <= x < ww && 0 <= y < hh implies if (begin_x
                        <= x < end_x && begin_y <= y < begin_y + dy + 1) {
                        expanded(f, src.at((x - begin_x) / nn, y - begin_y), (x - begin_x) % nn, #[trigger] self.at(x, y))
                    } else {
                        self.at(x, y) == old(self).at(x, y)
                    } by {
                        let idx = y * ss + x;
                        assert(0 <= y * ss) by (nonlinear_arith)
                            requires
                                0 <= y,
                                0 <= ss,
                        ;
                        assert(idx < len) by {
                            lemma_run_in_bounds(x, y, 1, ww, hh, ss);
                        }
                        if i0 <= idx < i0 + rem {
                            let k = idx - i0;
                            let xx = begin_x + u * nn + k;
                            lemma_index_unique(x, y, xx, (begin_y + dy) as int, ss);
                            lemma_fundamental_div_mod_converse(x - begin_x, nn, u as int, k);
                            assert(self.data@[idx] == c@[k]);
                            assert(call_ensures(f, (src.at(u as int, dy as int),), c));
                        } else {
                            assert(self.data@[idx] == prev.data@[idx]);
                            if y == begin_y + dy && begin_x + u * nn <= x < end_x {
                                assert(idx == i0 + (x - begin_x - u * nn)) by (nonlinear_arith)
                                    requires
                                        idx == y * ss + x,
                                        y == begin_y + dy,
                                        i0 == base + u * nn,
                                        base == (begin_y + dy) * ss + begin_x,
                                ;
                            }
                            assert(prev.at(x, y) == self.at(x, y));
                        }
                    }
                }
            } else {
                proof {
                    assert(chunks * nn == w) by (nonlinear_arith)
                        requires
                            chunks == (w as int) / nn,
                            (w as int) % nn == 0,
                            0 < nn,
                    ;
                }
            }
            dy = dy + 1;
        }
    }
}

} // verus!
