//! Heap-allocated image containers, and the index arithmetic they share.
use vstd::prelude::*;

verus! {

/// The linear index of `(x, y)` in a `width`-wide grid, computed with the
/// same wrapping `u32` arithmetic that the containers use.
pub open spec fn spec_xy_index(x: u32, y: u32, width: u32) -> int {
    (y as int * width as int + x as int) % 0x1_0000_0000
}

/// The number of pixels the containers consider to be in use: `width * height`
/// with wrapping `u32` arithmetic.
pub open spec fn spec_used_len(width: u32, height: u32) -> int {
    (width as int * height as int) % 0x1_0000_0000
}

/// The index of column `col` of the `k`-th row of `width` items counted from
/// the end of the first `end` items.
pub open spec fn row_from_end(end: int, width: int, k: int, col: int) -> int {
    end - (k + 1) * width + col
}

/// What flipping the first `end` items top to bottom does: for each of the
/// first `height / 2` rows of `width` items, the row counted from the front
/// and the row counted from the back of `0..end` trade places. Every other
/// item stays where it was.
pub open spec fn is_flip_within<P>(old: Seq<P>, new: Seq<P>, end: int, width: u32, height: u32) -> bool {
    let w = width as int;
    let half = height as int / 2;
    &&& new.len() == old.len()
    &&& forall|k: int, col: int|
        0 <= k < half && 0 <= col < w ==> #[trigger] new[k * w + col] == old[row_from_end(end, w, k, col)]
    &&& forall|k: int, col: int|
        0 <= k < half && 0 <= col < w ==> #[trigger] new[row_from_end(end, w, k, col)] == old[k * w + col]
    &&& forall|i: int|
        0 <= i < old.len() && !(i < w * half) && !(end - w * half <= i < end) ==> #[trigger] new[i] == old[i]
}

/// What a vertical flip of a whole buffer looks like (see [is_flip_within]).
/// When the buffer holds exactly `width * height` items, rows `0..height`
/// come out in reverse order ([lemma_vertical_flip_rows]).
pub open spec fn is_vertical_flip<P>(old: Seq<P>, new: Seq<P>, width: u32, height: u32) -> bool {
    is_flip_within(old, new, old.len() as int, width, height)
}

/// The first `end` items hold the `height / 2` rows taken from the front and
/// as many taken from the back without overlap, so that a flip can be
/// carried out.
pub open spec fn flip_fits(end: int, width: u32, height: u32) -> bool {
    2 * (width as int * (height as int / 2)) <= end
}

/// What flipping a borrowed buffer does: when it holds `width * height`
/// items (the wrapping `u32` product), those are flipped; otherwise nothing
/// changes.
pub open spec fn is_borrowed_flip<P>(old: Seq<P>, new: Seq<P>, width: u32, height: u32) -> bool {
    if spec_used_len(width, height) <= old.len() {
        is_flip_within(old, new, spec_used_len(width, height), width, height)
    } else {
        new == old
    }
}

/// The condition under which a borrowed buffer can be flipped: it is too
/// short for `width * height` (nothing happens), or that many items hold the
/// rows to be exchanged.
pub open spec fn borrowed_flip_is_defined(len: int, width: u32, height: u32) -> bool {
    spec_used_len(width, height) > len || flip_fits(spec_used_len(width, height), width, height)
}

/// Where the rows that a flip exchanges lie: the front rows come before the
/// back rows, all within `0..end`, and a back row is a front row shifted.
proof fn lemma_flip_indices(end: int, w: int, half: int, k: int, col: int)
    requires
        0 <= k < half,
        0 <= col < w,
        2 * (w * half) <= end,
    ensures
        0 <= k * w + col < w * half,
        w * half <= end - w * half,
        row_from_end(end, w, k, col) == end - w * half + (half - 1 - k) * w + col,
        end - w * half <= row_from_end(end, w, k, col) < end,
{
    lemma_grid_index_bounds(k, col, w, half);
    lemma_grid_index_bounds(half - 1 - k, col, w, half);
    assert(row_from_end(end, w, k, col) == end - w * half + (half - 1 - k) * w + col) by (nonlinear_arith)
        requires
            row_from_end(end, w, k, col) == end - (k + 1) * w + col,
    ;
}

/// A position in `0..w * half` is some row `k` and column `col`.
proof fn lemma_split_position(i: int, w: int, half: int) -> (kc: (int, int))
    requires
        0 <= i < w * half,
        half >= 0,
    ensures
        0 <= kc.0 < half,
        0 <= kc.1 < w,
        i == kc.0 * w + kc.1,
{
    assert(w > 0) by (nonlinear_arith)
        requires
            0 <= i < w * half,
            half >= 0,
    ;
    vstd::arithmetic::div_mod::lemma_fundamental_div_mod(i, w);
    let k = i / w;
    let col = i % w;
    assert(0 <= k < half && k * w + col == i) by (nonlinear_arith)
        requires
            i == w * k + col,
            0 <= col < w,
            0 <= i < w * half,
    ;
    (k, col)
}

/// Flipping the same items twice gives back what one started with.
proof fn lemma_flip_within_twice<P>(a: Seq<P>, b: Seq<P>, c: Seq<P>, end: int, width: u32, height: u32)
    requires
        end <= a.len(),
        flip_fits(end, width, height),
        is_flip_within(a, b, end, width, height),
        is_flip_within(b, c, end, width, height),
    ensures
        c == a,
{
    let w = width as int;
    let half = height as int / 2;
    assert forall|i: int| 0 <= i < a.len() implies c[i] == a[i] by {
        if i < w * half {
            let (k, col) = lemma_split_position(i, w, half);
            lemma_flip_indices(end, w, half, k, col);
            assert(c[k * w + col] == b[row_from_end(end, w, k, col)]);
        } else if end - w * half <= i < end {
            let (m, col) = lemma_split_position(i - (end - w * half), w, half);
            let k = half - 1 - m;
            lemma_flip_indices(end, w, half, k, col);
            assert(c[row_from_end(end, w, k, col)] == b[k * w + col]);
        }
    }
    assert(c =~= a);
}

/// Flipping a buffer top to bottom twice gives back the items one started
/// with.
pub proof fn lemma_vertical_flip_twice<P>(a: Seq<P>, b: Seq<P>, c: Seq<P>, width: u32, height: u32)
    requires
        flip_fits(a.len() as int, width, height),
        is_vertical_flip(a, b, width, height),
        is_vertical_flip(b, c, width, height),
    ensures
        c == a,
{
    lemma_flip_within_twice(a, b, c, a.len() as int, width, height);
}

/// Flipping a borrowed buffer twice gives back the items one started with.
pub proof fn lemma_borrowed_flip_twice<P>(a: Seq<P>, b: Seq<P>, c: Seq<P>, width: u32, height: u32)
    requires
        borrowed_flip_is_defined(a.len() as int, width, height),
        is_borrowed_flip(a, b, width, height),
        is_borrowed_flip(b, c, width, height),
    ensures
        c == a,
{
    if spec_used_len(width, height) <= a.len() {
        lemma_flip_within_twice(a, b, c, spec_used_len(width, height), width, height);
    }
}

/// A buffer of exactly `width * height` items can always be flipped.
pub proof fn lemma_full_grid_flip_fits(width: u32, height: u32)
    ensures
        flip_fits(width as int * height as int, width, height),
{
    let h = height as int;
    let w = width as int;
    assert(2 * (w * (h / 2)) <= w * h) by (nonlinear_arith)
        requires
            w >= 0,
            h >= 0,
            2 * (h / 2) <= h,
    ;
}

/// On a buffer of exactly `width * height` items, a flip puts row `row` where
/// row `height - 1 - row` was, for every row and column.
pub proof fn lemma_vertical_flip_rows<P>(old: Seq<P>, new: Seq<P>, width: u32, height: u32)
    requires
        old.len() == width as int * height as int,
        is_vertical_flip(old, new, width, height),
    ensures
        forall|row: int, col: int|
            0 <= row < height && 0 <= col < width ==> #[trigger] new[row * width + col] == old[(height - 1
                - row) * width + col],
{
    let w = width as int;
    let h = height as int;
    let half = h / 2;
    let end = old.len() as int;
    lemma_full_grid_flip_fits(width, height);
    assert forall|row: int, col: int| 0 <= row < h && 0 <= col < w implies #[trigger] new[row * w + col]
        == old[(h - 1 - row) * w + col] by {
        lemma_grid_index_bounds(row, col, w, h);
        if row < half {
            lemma_flip_indices(end, w, half, row, col);
            assert(row_from_end(end, w, row, col) == (h - 1 - row) * w + col) by (nonlinear_arith)
                requires
                    row_from_end(end, w, row, col) == end - (row + 1) * w + col,
                    end == w * h,
            ;
        } else if row >= h - half {
            let k = h - 1 - row;
            lemma_flip_indices(end, w, half, k, col);
            assert(row_from_end(end, w, k, col) == row * w + col) by (nonlinear_arith)
                requires
                    row_from_end(end, w, k, col) == end - (k + 1) * w + col,
                    end == w * h,
                    k == h - 1 - row,
            ;
            assert(new[row_from_end(end, w, k, col)] == old[k * w + col]);
        } else {
            assert(row == h - 1 - row);
            assert(w * half <= row * w + col < end - w * half) by (nonlinear_arith)
                requires
                    half <= row,
                    row < h - half,
                    0 <= col < w,
                    end == w * h,
            ;
        }
    }
}

/// Converts an `(x,y)` position within a given `width` 2D space into a linear
/// index (wrapping `u32` arithmetic).
pub fn xy_width_to_index(x: u32, y: u32, width: u32) -> (i: usize)
    ensures
        i as int == spec_xy_index(x, y, width),
{
    let prod = y.wrapping_mul(width);
    let s = prod.wrapping_add(x);
    s as usize
}

/// Swaps two elements of a slice (`<[T]>::swap`).
#[verifier::external_body]
fn slice_swap<T>(s: &mut [T], i: usize, j: usize)
    requires
        i < old(s)@.len(),
        j < old(s)@.len(),
    ensures
        final(s)@ == old(s)@.update(i as int, old(s)@[j as int]).update(j as int, old(s)@[i as int]),
{
    s.swap(i, j)
}

proof fn lemma_grid_index_bounds(row: int, col: int, width: int, height: int)
    requires
        0 <= row < height,
        0 <= col < width,
    ensures
        0 <= row * width + col < width * height,
        0 <= row * width,
{
    assert(row * width + col < width * height) by (nonlinear_arith)
        requires
            0 <= row < height,
            0 <= col < width,
    ;
    assert(0 <= row * width) by (nonlinear_arith)
        requires
            0 <= row,
            0 <= width,
    ;
}

proof fn lemma_grid_index_injective(r1: int, c1: int, r2: int, c2: int, width: int)
    requires
        0 <= c1 < width,
        0 <= c2 < width,
        0 <= r1,
        0 <= r2,
        r1 * width + c1 == r2 * width + c2,
    ensures
        r1 == r2,
        c1 == c2,
{
    if r1 < r2 {
        assert(r1 * width + width <= r2 * width) by (nonlinear_arith)
            requires
                r1 < r2,
                0 <= width,
        ;
    } else if r2 < r1 {
        assert(r2 * width + width <= r1 * width) by (nonlinear_arith)
            requires
                r2 < r1,
                0 <= width,
        ;
    }
}

/// Flips the first `end` items of `data` top to bottom as rows of `width`:
/// the front and back rows trade places, `height / 2` pairs of them.
fn flip_rows<P>(data: &mut [P], end: usize, width: u32, height: u32)
    requires
        end <= old(data)@.len(),
        flip_fits(end as int, width, height),
    ensures
        is_flip_within(old(data)@, final(data)@, end as int, width, height),
{
    let ghost orig = data@;
    let ghost e = end as int;
    let w = width as usize;
    let half = (height / 2) as usize;
    let ghost wi = w as int;
    let ghost hi = half as int;
    let mut k: usize = 0;
    while k < half
        invariant
            w == width,
            half == height / 2,
            wi == w,
            hi == half,
            e == end,
            k <= half,
            end <= orig.len(),
            2 * (wi * hi) <= e,
            data@.len() == orig.len(),
            forall|k2: int, c2: int|
                0 <= k2 < hi && 0 <= c2 < wi ==> #[trigger] data@[k2 * wi + c2] == if k2 < k {
                    orig[row_from_end(e, wi, k2, c2)]
                } else {
                    orig[k2 * wi + c2]
                },
            forall|k2: int, c2: int|
                0 <= k2 < hi && 0 <= c2 < wi ==> #[trigger] data@[row_from_end(e, wi, k2, c2)] == if k2 < k {
                    orig[k2 * wi + c2]
                } else {
                    orig[row_from_end(e, wi, k2, c2)]
                },
            forall|i: int|
                0 <= i < orig.len() && !(i < wi * hi) && !(e - wi * hi <= i < e) ==> #[trigger] data@[i]
                    == orig[i],
        decreases half - k,
    {
        let mut col: usize = 0;
        while col < w
            invariant
                w == width,
                half == height / 2,
                wi == w,
                hi == half,
                e == end,
                k < half,
                col <= w,
                end <= orig.len(),
                2 * (wi * hi) <= e,
                data@.len() == orig.len(),
                forall|k2: int, c2: int|
                    0 <= k2 < hi && 0 <= c2 < wi ==> #[trigger] data@[k2 * wi + c2] == if k2 < k || (k2 == k
                        && c2 < col) {
                        orig[row_from_end(e, wi, k2, c2)]
                    } else {
                        orig[k2 * wi + c2]
                    },
                forall|k2: int, c2: int|
                    0 <= k2 < hi && 0 <= c2 < wi ==> #[trigger] data@[row_from_end(e, wi, k2, c2)] == if k2 < k
                        || (k2 == k && c2 < col) {
                        orig[k2 * wi + c2]
                    } else {
                        orig[row_from_end(e, wi, k2, c2)]
                    },
                forall|i: int|
                    0 <= i < orig.len() && !(i < wi * hi) && !(e - wi * hi <= i < e) ==> #[trigger] data@[i]
                        == orig[i],
            decreases w - col,
        {
            proof {
                lemma_flip_indices(e, wi, hi, k as int, col as int);
                assert((k + 1) * wi <= wi * hi) by (nonlinear_arith)
                    requires
                        k < hi,
                        wi >= 0,
                ;
            }
            let a = k * w + col;
            let b = end - (k + 1) * w + col;
            let ghost before = data@;
            slice_swap(data, a, b);
            proof {
                assert forall|k2: int, c2: int| 0 <= k2 < hi && 0 <= c2 < wi implies #[trigger] data@[k2 * wi
                    + c2] == if k2 < k || (k2 == k && c2 < col + 1) {
                    orig[row_from_end(e, wi, k2, c2)]
                } else {
                    orig[k2 * wi + c2]
                } by {
                    lemma_flip_indices(e, wi, hi, k2, c2);
                    if k2 * wi + c2 == a as int {
                        lemma_grid_index_injective(k2, c2, k as int, col as int, wi);
                    }
                }
                assert forall|k2: int, c2: int| 0 <= k2 < hi && 0 <= c2 < wi implies #[trigger] data@[row_from_end(
                    e,
                    wi,
                    k2,
                    c2,
                )] == if k2 < k || (k2 == k && c2 < col + 1) {
                    orig[k2 * wi + c2]
                } else {
                    orig[row_from_end(e, wi, k2, c2)]
                } by {
                    lemma_flip_indices(e, wi, hi, k2, c2);
                    if row_from_end(e, wi, k2, c2) == b as int {
                        lemma_grid_index_injective(hi - 1 - k2, c2, hi - 1 - k, col as int, wi);
                    }
                }
            }
            col = col + 1;
        }
        k = k + 1;
    }
}

/// A direct-color image.
#[derive(Debug, Clone, Default)]
pub struct Bitmap<P> {
    pub width: u32,
    pub height: u32,
    pub pixels: Vec<P>,
}

impl<P> Bitmap<P> {
    /// Gets the pixel at the position, or `None` if the position is out of
    /// bounds (of the dimensions, or of the pixel buffer).
    pub fn get_mut(&mut self, x: u32, y: u32) -> (r: Option<&mut P>)
        ensures
            r is Some <==> (x < old(self).width && y < old(self).height && spec_xy_index(x, y, old(self).width)
                < old(self).pixels@.len()),
            r matches Some(p) ==> {
                &&& *p == old(self).pixels@[spec_xy_index(x, y, old(self).width)]
                &&& final(self).pixels@ == old(self).pixels@.update(
                    spec_xy_index(x, y, old(self).width),
                    *final(p),
                )
                &&& final(self).width == old(self).width
                &&& final(self).height == old(self).height
            },
            r is None ==> *final(self) == *old(self),
    {
        if x < self.width && y < self.height {
            let i = xy_width_to_index(x, y, self.width);
            if i < self.pixels.len() {
                Some(&mut self.pixels[i])
            } else {
                None
            }
        } else {
            None
        }
    }

    /// Flips the image top to bottom: the first `height / 2` rows of the
    /// buffer trade places with as many rows taken from its end.
    pub fn vertical_flip(&mut self)
        requires
            flip_fits(old(self).pixels@.len() as int, old(self).width, old(self).height),
        ensures
            final(self).width == old(self).width,
            final(self).height == old(self).height,
            is_vertical_flip(old(self).pixels@, final(self).pixels@, old(self).width, old(self).height),
    {
        let w = self.width;
        let h = self.height;
        let n = self.pixels.len();
        flip_rows(self.pixels.as_mut_slice(), n, w, h);
    }
}

/// An indexed-color image.
#[derive(Debug, Clone, Default)]
pub struct Palmap<I, P> {
    pub width: u32,
    pub height: u32,
    pub indexes: Vec<I>,
    pub palette: Vec<P>,
}

impl<I, P> Palmap<I, P> {
    /// Gets the index at the position, or `None` if the position is out of
    /// bounds (of the dimensions, or of the index buffer).
    pub fn get_mut(&mut self, x: u32, y: u32) -> (r: Option<&mut I>)
        ensures
            r is Some <==> (x < old(self).width && y < old(self).height && spec_xy_index(x, y, old(self).width)
                < old(self).indexes@.len()),
            r matches Some(p) ==> {
                &&& *p == old(self).indexes@[spec_xy_index(x, y, old(self).width)]
                &&& final(self).indexes@ == old(self).indexes@.update(
                    spec_xy_index(x, y, old(self).width),
                    *final(p),
                )
                &&& final(self).palette@ == old(self).palette@
                &&& final(self).width == old(self).width
                &&& final(self).height == old(self).height
            },
            r is None ==> *final(self) == *old(self),
    {
        if x < self.width && y < self.height {
            let i = xy_width_to_index(x, y, self.width);
            if i < self.indexes.len() {
                Some(&mut self.indexes[i])
            } else {
                None
            }
        } else {
            None
        }
    }

    /// Flips the image top to bottom: the first `height / 2` rows of the
    /// buffer trade places with as many rows taken from its end.
    pub fn vertical_flip(&mut self)
        requires
            flip_fits(old(self).indexes@.len() as int, old(self).width, old(self).height),
        ensures
            final(self).width == old(self).width,
            final(self).height == old(self).height,
            final(self).palette@ == old(self).palette@,
            is_vertical_flip(old(self).indexes@, final(self).indexes@, old(self).width, old(self).height),
    {
        let w = self.width;
        let h = self.height;
        let n = self.indexes.len();
        flip_rows(self.indexes.as_mut_slice(), n, w, h);
    }
}

/// A view of pixels borrowed from somewhere else.
#[derive(Debug)]
pub struct BorrowedBitmap<'a, P> {
    /// Width in pixels.
    pub width: u32,
    /// Height in pixels.
    pub height: u32,
    /// Borrow of the pixel data.
    pub pixels: &'a mut [P],
}

impl<'a, P> BorrowedBitmap<'a, P> {
    /// Gets the pixel at the position, or `None` if the position is out of
    /// bounds (of the dimensions, or of the pixel buffer).
    pub fn get_mut(&mut self, x: u32, y: u32) -> (r: Option<&mut P>)
        ensures
            r is Some <==> (x < old(self).width && y < old(self).height && spec_xy_index(x, y, old(self).width)
                < old(self).pixels@.len()),
            r matches Some(p) ==> {
                &&& *p == old(self).pixels@[spec_xy_index(x, y, old(self).width)]
                &&& final(self).pixels@ == old(self).pixels@.update(
                    spec_xy_index(x, y, old(self).width),
                    *final(p),
                )
                &&& final(self).width == old(self).width
                &&& final(self).height == old(self).height
            },
            r is None ==> final(self).pixels@ == old(self).pixels@ && final(self).width == old(self).width
                && final(self).height == old(self).height,
    {
        if x < self.width && y < self.height {
            let i = xy_width_to_index(x, y, self.width);
            if i < self.pixels.len() {
                Some(&mut self.pixels[i])
            } else {
                None
            }
        } else {
            None
        }
    }

    /// Flips the image, top to bottom.
    ///
    /// If the buffer contains less pixels than `width * height` would indicate,
    /// this will do nothing.
    pub fn vertical_flip(&mut self)
        requires
            borrowed_flip_is_defined(old(self).pixels@.len() as int, old(self).width, old(self).height),
        ensures
            final(self).width == old(self).width,
            final(self).height == old(self).height,
            is_borrowed_flip(old(self).pixels@, final(self).pixels@, old(self).width, old(self).height),
    {
        let w = self.width;
        let h = self.height;
        let num_pixels = w.wrapping_mul(h) as usize;
        if num_pixels <= self.pixels.len() {
            flip_rows(self.pixels, num_pixels, w, h);
        }
    }
}

} // verus!
