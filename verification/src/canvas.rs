//! Canvas: a 2D pixel buffer with bounds checking, the coordinate-system
//! conversion between bottom-up simulation space and top-down raster
//! space, and neighborhood expansion for stroke thickness.
//!
//! Out-of-bounds writes are clipping, not errors: `set_pixel` leaves the
//! canvas unchanged when the target lies outside it.

use vstd::prelude::*;

use crate::color::Pixel;

verus! {

/// Whether `(x, y)` lies in the rectangle `[0, w) x [0, h)`.
pub open spec fn in_rect_spec(x: int, y: int, w: int, h: int) -> bool {
    x >= 0 && y >= 0 && x < w && y < h
}

/// Determines if the point (x, y) resides in the rectangle from point
/// (0..width, 0..height).
pub fn point_is_in_rectangle(x: i32, y: i32, width: i32, height: i32) -> (r: bool)
    ensures
        r == in_rect_spec(x as int, y as int, width as int, height as int),
{
    x >= 0 && y >= 0 && x < width && y < height
}

/// Raster storage uses top-down coordinates; the simulation uses
/// bottom-up ones.  This switches between the two conventions.
pub fn convert_to_bottom_up_coordinates(x: i32, y: i32, _w: i32, h: i32) -> (r: (i32, i32))
    requires
        i32::MIN <= h - y <= i32::MAX,
    ensures
        r.0 == x,
        r.1 == h - y,
{
    (x, h - y)
}

/// One row of the neighborhood of `(x, y)`: the in-bounds cells
/// `(x + i, y + j)` for `j` ranging over the first `jcnt` offsets
/// strictly within the half-width `n` (that is, `1 - n ..= n - 1`), in
/// increasing order.
pub open spec fn nb_row(x: int, y: int, w: int, h: int, n: int, i: int, jcnt: int) -> Seq<
    (i32, i32),
>
    decreases jcnt,
{
    if jcnt <= 0 {
        Seq::empty()
    } else {
        let prev = nb_row(x, y, w, h, n, i, jcnt - 1);
        let j = jcnt - n;
        if in_rect_spec(x + i, y + j, w, h) {
            prev.push((((x + i) as i32), ((y + j) as i32)))
        } else {
            prev
        }
    }
}

/// The neighborhood rows for `i` ranging over the first `icnt` offsets
/// strictly within the half-width `n`, concatenated in increasing order
/// of `i`.
pub open spec fn nb_rows(x: int, y: int, w: int, h: int, n: int, icnt: int) -> Seq<(i32, i32)>
    decreases icnt,
{
    if icnt <= 0 {
        Seq::empty()
    } else {
        nb_rows(x, y, w, h, n, icnt - 1) + nb_row(x, y, w, h, n, icnt - n, 2 * n - 1)
    }
}

/// Every in-bounds cell of the open square of half-width `n` around
/// `(x, y)` — the offsets with `|i| < n` and `|j| < n`, the center
/// included — row-major.
pub open spec fn neighbors_spec(x: int, y: int, w: int, h: int, n: int) -> Seq<(i32, i32)> {
    nb_rows(x, y, w, h, n, 2 * n - 1)
}

/// Picks all neighbors strictly within "n" distance from (x, y) — the
/// open square of half-width `n` — that are valid points of the `w` by
/// `h` rectangle, in row-major order.
pub fn neighbors(x: i32, y: i32, w: i32, h: i32, n: i32) -> (v: Vec<(i32, i32)>)
    requires
        n > 0 ==> i32::MIN <= x - n && x + n <= i32::MAX && i32::MIN <= y - n && y + n
            <= i32::MAX,
    ensures
        v@ == neighbors_spec(x as int, y as int, w as int, h as int, n as int),
{
    let mut v: Vec<(i32, i32)> = Vec::new();
    if n <= 0 {
        proof {
            assert(v@ =~= neighbors_spec(x as int, y as int, w as int, h as int, n as int));
        }
        return v;
    }
    let mut i: i32 = 1 - n;
    proof {
        assert(v@ =~= nb_rows(x as int, y as int, w as int, h as int, n as int, 0));
    }
    while i < n
        invariant
            n > 0,
            1 - n <= i <= n,
            i32::MIN <= x - n,
            x + n <= i32::MAX,
            i32::MIN <= y - n,
            y + n <= i32::MAX,
            v@ == nb_rows(x as int, y as int, w as int, h as int, n as int, i + n - 1),
        decreases n - i,
    {
        let mut j: i32 = 1 - n;
        proof {
            assert(nb_row(x as int, y as int, w as int, h as int, n as int, i as int, 0)
                =~= Seq::<(i32, i32)>::empty());
            assert(v@ =~= nb_rows(x as int, y as int, w as int, h as int, n as int, i + n - 1)
                + nb_row(x as int, y as int, w as int, h as int, n as int, i as int, 0));
        }
        while j < n
            invariant
                n > 0,
                1 - n <= i < n,
                1 - n <= j <= n,
                i32::MIN <= x - n,
                x + n <= i32::MAX,
                i32::MIN <= y - n,
                y + n <= i32::MAX,
                v@ == nb_rows(x as int, y as int, w as int, h as int, n as int, i + n - 1)
                    + nb_row(
                    x as int,
                    y as int,
                    w as int,
                    h as int,
                    n as int,
                    i as int,
                    j + n - 1,
                ),
            decreases n - j,
        {
            let mx: i32 = x + i;
            let my: i32 = y + j;
            if point_is_in_rectangle(mx, my, w, h) {
                v.push((mx, my));
            }
            j = j + 1;
        }
        i = i + 1;
        proof {
            assert(v@ =~= nb_rows(x as int, y as int, w as int, h as int, n as int, i + n - 1));
        }
    }
    v
}

/// What holds of every cell in a neighborhood around `(x, y)`: it is in
/// bounds and lies strictly within the open square of half-width `n`.
pub open spec fn neighbor_cell_ok(e: (i32, i32), x: int, y: int, w: int, h: int, n: int) -> bool {
    in_rect_spec(e.0 as int, e.1 as int, w, h) && x - n < e.0 < x + n && y - n < e.1 < y + n
}

/// Every cell a neighborhood row holds is in bounds and within the open
/// square around `(x, y)`.
proof fn lemma_nb_row_sound(x: int, y: int, w: int, h: int, n: int, i: int, jcnt: int)
    requires
        jcnt <= 2 * n - 1,
        i32::MIN <= x - n,
        x + n <= i32::MAX,
        i32::MIN <= y - n,
        y + n <= i32::MAX,
        -n < i < n,
        n > 0,
    ensures
        forall|k: int|
            0 <= k < nb_row(x, y, w, h, n, i, jcnt).len() ==> neighbor_cell_ok(
                #[trigger] nb_row(x, y, w, h, n, i, jcnt)[k],
                x,
                y,
                w,
                h,
                n,
            ),
    decreases jcnt,
{
    if jcnt > 0 {
        lemma_nb_row_sound(x, y, w, h, n, i, jcnt - 1);
        let row = nb_row(x, y, w, h, n, i, jcnt);
        let prev = nb_row(x, y, w, h, n, i, jcnt - 1);
        assert forall|k: int| 0 <= k < row.len() implies neighbor_cell_ok(
            #[trigger] row[k],
            x,
            y,
            w,
            h,
            n,
        ) by {
            if k < prev.len() {
                assert(row[k] == prev[k]);
            }
        }
    }
}

/// Every cell the full neighborhood holds is in bounds and within the
/// open square around `(x, y)`.
proof fn lemma_nb_rows_sound(x: int, y: int, w: int, h: int, n: int, icnt: int)
    requires
        icnt <= 2 * n - 1,
        i32::MIN <= x - n,
        x + n <= i32::MAX,
        i32::MIN <= y - n,
        y + n <= i32::MAX,
        n > 0,
    ensures
        forall|k: int|
            0 <= k < nb_rows(x, y, w, h, n, icnt).len() ==> neighbor_cell_ok(
                #[trigger] nb_rows(x, y, w, h, n, icnt)[k],
                x,
                y,
                w,
                h,
                n,
            ),
    decreases icnt,
{
    if icnt > 0 {
        lemma_nb_rows_sound(x, y, w, h, n, icnt - 1);
        lemma_nb_row_sound(x, y, w, h, n, icnt - n, 2 * n - 1);
        let whole = nb_rows(x, y, w, h, n, icnt);
        let prev = nb_rows(x, y, w, h, n, icnt - 1);
        let row = nb_row(x, y, w, h, n, icnt - n, 2 * n - 1);
        assert forall|k: int| 0 <= k < whole.len() implies neighbor_cell_ok(
            #[trigger] whole[k],
            x,
            y,
            w,
            h,
            n,
        ) by {
            if k < prev.len() {
                assert(whole[k] == prev[k]);
            } else {
                assert(whole[k] == row[k - prev.len()]);
            }
        }
    }
}

/// The neighborhood brush never paints outside the canvas: every
/// coordinate `neighbors` returns is in bounds, and lies strictly within
/// the open square of half-width `n` around `(x, y)`.
pub proof fn lemma_neighbors_in_bounds(x: int, y: int, w: int, h: int, n: int)
    requires
        i32::MIN <= x - n,
        x + n <= i32::MAX,
        i32::MIN <= y - n,
        y + n <= i32::MAX,
    ensures
        forall|k: int|
            0 <= k < neighbors_spec(x, y, w, h, n).len() ==> neighbor_cell_ok(
                #[trigger] neighbors_spec(x, y, w, h, n)[k],
                x,
                y,
                w,
                h,
                n,
            ),
{
    if n > 0 {
        lemma_nb_rows_sound(x, y, w, h, n, 2 * n - 1);
    }
}

/// A row contains the cell of every in-bounds offset it has reached.
proof fn lemma_nb_row_complete(
    x: int,
    y: int,
    w: int,
    h: int,
    n: int,
    i: int,
    jcnt: int,
    j0: int,
)
    requires
        -n < j0,
        j0 + n <= jcnt,
        in_rect_spec(x + i, y + j0, w, h),
    ensures
        nb_row(x, y, w, h, n, i, jcnt).contains((((x + i) as i32), ((y + j0) as i32))),
    decreases jcnt,
{
    let e = (((x + i) as i32), ((y + j0) as i32));
    let row = nb_row(x, y, w, h, n, i, jcnt);
    let prev = nb_row(x, y, w, h, n, i, jcnt - 1);
    if j0 == jcnt - n {
        assert(row[row.len() - 1] == e);
    } else {
        lemma_nb_row_complete(x, y, w, h, n, i, jcnt - 1, j0);
        let k = choose|k: int| 0 <= k < prev.len() && prev[k] == e;
        assert(row[k] == e);
    }
}

/// The concatenated rows contain the cell of every in-bounds offset pair
/// they have reached.
proof fn lemma_nb_rows_complete(
    x: int,
    y: int,
    w: int,
    h: int,
    n: int,
    icnt: int,
    i0: int,
    j0: int,
)
    requires
        -n < i0,
        i0 + n <= icnt,
        -n < j0 < n,
        in_rect_spec(x + i0, y + j0, w, h),
    ensures
        nb_rows(x, y, w, h, n, icnt).contains((((x + i0) as i32), ((y + j0) as i32))),
    decreases icnt,
{
    let e = (((x + i0) as i32), ((y + j0) as i32));
    let whole = nb_rows(x, y, w, h, n, icnt);
    let prev = nb_rows(x, y, w, h, n, icnt - 1);
    let row = nb_row(x, y, w, h, n, icnt - n, 2 * n - 1);
    if i0 == icnt - n {
        lemma_nb_row_complete(x, y, w, h, n, i0, 2 * n - 1, j0);
        let k = choose|k: int| 0 <= k < row.len() && row[k] == e;
        assert(whole[prev.len() + k] == e);
    } else {
        lemma_nb_rows_complete(x, y, w, h, n, icnt - 1, i0, j0);
        let k = choose|k: int| 0 <= k < prev.len() && prev[k] == e;
        assert(whole[k] == e);
    }
}

/// The neighborhood misses nothing: every in-bounds cell of the open
/// square of half-width `n` around `(x, y)` appears in the result of
/// `neighbors`.
pub proof fn lemma_neighbors_complete(
    x: int,
    y: int,
    w: int,
    h: int,
    n: int,
    i0: int,
    j0: int,
)
    requires
        -n < i0 < n,
        -n < j0 < n,
        in_rect_spec(x + i0, y + j0, w, h),
    ensures
        neighbors_spec(x, y, w, h, n).contains((((x + i0) as i32), ((y + j0) as i32))),
{
    lemma_nb_rows_complete(x, y, w, h, n, 2 * n - 1, i0, j0);
}

/// A 2D buffer of device pixels with fixed dimensions.  The pixel write
/// is the sole mutation point, and it clips instead of failing.
pub struct Canvas {
    width: u32,
    height: u32,
    pixels: Vec<Pixel>,
}

impl Canvas {
    /// The number of columns.
    pub closed spec fn spec_width(self) -> int {
        self.width as int
    }

    /// The number of rows.
    pub closed spec fn spec_height(self) -> int {
        self.height as int
    }

    /// The buffer holds exactly one pixel per cell.
    pub closed spec fn wf(self) -> bool {
        self.pixels@.len() == self.width as int * self.height as int
    }

    /// The channels of the pixel stored at `(x, y)`, row-major top-down.
    pub closed spec fn pixel_at(self, x: int, y: int) -> Seq<u8> {
        self.pixels@[y * self.spec_width() + x]@
    }

    /// Whether `(x, y)` lies on the canvas.
    pub open spec fn in_bounds_spec(self, x: int, y: int) -> bool {
        in_rect_spec(x, y, self.spec_width(), self.spec_height())
    }

    /// Allocates a zero-initialized (black) pixel buffer.  A zero-area
    /// canvas is permitted and simply unwritable.
    pub fn new(width: u32, height: u32) -> (c: Canvas)
        requires
            width as int * height as int <= usize::MAX as int,
        ensures
            c.wf(),
            c.spec_width() == width,
            c.spec_height() == height,
            forall|x: int, y: int|
                c.in_bounds_spec(x, y) ==> c.pixel_at(x, y) == seq![0u8, 0u8, 0u8],
    {
        let total: usize = (width as usize) * (height as usize);
        let mut pixels: Vec<Pixel> = Vec::new();
        let mut k: usize = 0;
        while k < total
            invariant
                k <= total,
                pixels@.len() == k,
                forall|m: int| 0 <= m < k ==> pixels@[m]@ == seq![0u8, 0u8, 0u8],
            decreases total - k,
        {
            let p: Pixel = [0u8, 0u8, 0u8];
            proof {
                assert(p@ =~= seq![0u8, 0u8, 0u8]);
            }
            pixels.push(p);
            k = k + 1;
        }
        let c = Canvas { width, height, pixels };
        proof {
            lemma_rm_index_in_range(width as int, height as int);
        }
        c
    }

    /// The canvas's dimensions.
    pub fn dimensions(&self) -> (d: (u32, u32))
        ensures
            d.0 == self.spec_width(),
            d.1 == self.spec_height(),
    {
        (self.width, self.height)
    }

    /// True iff `0 <= x < width && 0 <= y < height`.
    pub fn in_bounds(&self, x: i32, y: i32) -> (r: bool)
        requires
            self.wf(),
        ensures
            r == self.in_bounds_spec(x as int, y as int),
    {
        x >= 0 && y >= 0 && (x as i64) < (self.width as i64) && (y as i64) < (self.height as i64)
    }

    /// Reads the pixel at `(x, y)`.
    pub fn get_pixel(&self, x: u32, y: u32) -> (p: Pixel)
        requires
            self.wf(),
            x < self.spec_width(),
            y < self.spec_height(),
        ensures
            p@ == self.pixel_at(x as int, y as int),
    {
        let len: usize = self.pixels.len();
        proof {
            lemma_rm_index_bound(
                x as int,
                y as int,
                self.spec_width(),
                self.spec_height(),
            );
            assert((y as int * self.spec_width() + x as int) < (len as int));
        }
        let idx: usize = (y as usize) * (self.width as usize) + (x as usize);
        self.pixels[idx]
    }

    /// Writes `p` at `(x, y)` if that cell is on the canvas; an
    /// out-of-bounds write is a no-op, never an error.
    pub fn set_pixel(&mut self, x: i32, y: i32, p: Pixel)
        requires
            old(self).wf(),
        ensures
            final (self).wf(),
            final (self).spec_width() == old(self).spec_width(),
            final (self).spec_height() == old(self).spec_height(),
            old(self).in_bounds_spec(x as int, y as int) ==> final (self).pixel_at(
                x as int,
                y as int,
            ) == p@,
            forall|a: int, b: int|
                old(self).in_bounds_spec(a, b) && !(a == x as int && b == y as int)
                    ==> #[trigger] final (self).pixel_at(a, b) == old(self).pixel_at(a, b),
            !old(self).in_bounds_spec(x as int, y as int) ==> *final (self) == *old(self),
    {
        if x >= 0 && y >= 0 && (x as i64) < (self.width as i64) && (y as i64) < (self.height
            as i64) {
            let len: usize = self.pixels.len();
            proof {
                lemma_rm_index_bound(
                    x as int,
                    y as int,
                    self.spec_width(),
                    self.spec_height(),
                );
                assert((y as int * self.spec_width() + x as int) < (len as int));
            }
            let idx: usize = (y as usize) * (self.width as usize) + (x as usize);
            self.pixels.set(idx, p);
            proof {
                let w = self.spec_width();
                let h = self.spec_height();
                assert forall|a: int, b: int|
                    old(self).in_bounds_spec(a, b) && !(a == x as int && b == y as int) implies
                    self.pixel_at(a, b) == old(self).pixel_at(a, b) by {
                    lemma_rm_index_bound(a, b, w, h);
                    if b * w + a == y as int * w + x as int {
                        assert(a == x as int && b == y as int) by (nonlinear_arith)
                            requires
                                0 <= a < w,
                                0 <= b < h,
                                0 <= (x as int) < w,
                                0 <= (y as int) < h,
                                b * w + a == y as int * w + x as int,
                        ;
                    }
                }
            }
        }
    }
}

/// A row-major index of an in-bounds cell lies within the buffer.
proof fn lemma_rm_index_bound(x: int, y: int, w: int, h: int)
    requires
        0 <= x < w,
        0 <= y < h,
    ensures
        0 <= y * w + x < w * h,
{
    assert(0 <= y * w + x < w * h) by (nonlinear_arith)
        requires
            0 <= x < w,
            0 <= y < h,
    ;
}

/// Every in-bounds cell's row-major index lies within the buffer.
proof fn lemma_rm_index_in_range(w: int, h: int)
    ensures
        forall|x: int, y: int|
            0 <= x < w && 0 <= y < h ==> 0 <= #[trigger] (y * w + x) < w * h,
{
    assert forall|x: int, y: int| 0 <= x < w && 0 <= y < h implies 0 <= #[trigger] (y * w + x)
        < w * h by {
        lemma_rm_index_bound(x, y, w, h);
    }
}

} // verus!
