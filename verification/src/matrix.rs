//! Matrix kernel: fixed-size square matrices of fixed-point scalars.
//!
//! The 4x4 matrices carry the renderer's affine transforms.  The
//! determinant is computed by cofactor expansion along the first row, and
//! the inverse by the adjugate method: entry `(r, c)` of the inverse is
//! `cofactor(c, r) / determinant`.  A matrix is invertible exactly when
//! its determinant is not approximately zero.

use vstd::prelude::*;

use crate::error::AlgebraError;
use crate::scalar::{
    approx_eq, approx_eq_spec, fx_div, fx_dot4, fx_mul, fx_scale_down, fxabs,
    lemma_round_div_exact, rdiv, round_div, EPSILON, SCALE,
};
use crate::tuple::Tuple;

verus! {

/// A 2x2 matrix, row-major.
#[derive(Clone, Copy, Debug)]
pub struct Matrix2x2 {
    m: [i64; 4],
}

/// A 3x3 matrix, row-major.
#[derive(Clone, Copy, Debug)]
pub struct Matrix3x3 {
    m: [i64; 9],
}

/// A 4x4 matrix, row-major.
#[derive(Clone, Copy, Debug)]
pub struct Matrix4x4 {
    m: [i64; 16],
}

/// A 4-component column, as used to apply a 4x4 transform to a tuple.
#[derive(Clone, Copy, Debug)]
pub struct Matrix4x1 {
    m: [i64; 4],
}

/// The row (or column) index that survives deleting index `cut`: indices
/// below `cut` stay, the ones above shift down by one.
pub open spec fn skip(cut: int, i: int) -> int {
    if i < cut {
        i
    } else {
        i + 1
    }
}

/// Computes `skip` on machine integers.
fn skip_ex(cut: usize, i: usize) -> (r: usize)
    requires
        cut <= 4,
        i < 4,
    ensures
        r as int == skip(cut as int, i as int),
{
    if i < cut {
        i
    } else {
        i + 1
    }
}

/// Whether two scalars lie within `tol` units of each other.
fn scalar_close(a: i64, b: i64, tol: i64) -> (r: bool)
    requires
        tol >= 0,
    ensures
        r == (fxabs(a as int - b as int) <= tol as int),
{
    let d: i128 = a as i128 - b as i128;
    let ad: i128 = if d < 0 {
        -d
    } else {
        d
    };
    ad <= tol as i128
}

impl Matrix2x2 {
    /// The entry at row `r`, column `c`.
    pub closed spec fn at(self, r: int, c: int) -> int {
        self.m@[2 * r + c] as int
    }

    /// Builds the matrix from its four entries, row-major.
    pub fn new(m00: i64, m01: i64, m10: i64, m11: i64) -> (r: Matrix2x2)
        ensures
            r.at(0, 0) == m00,
            r.at(0, 1) == m01,
            r.at(1, 0) == m10,
            r.at(1, 1) == m11,
    {
        Matrix2x2 { m: [m00, m01, m10, m11] }
    }

    /// Reads the entry at row `r`, column `c`.
    pub fn entry(&self, r: usize, c: usize) -> (v: i64)
        requires
            r < 2,
            c < 2,
        ensures
            v as int == self.at(r as int, c as int),
    {
        self.m[2 * r + c]
    }

    /// Whether every entry of `self` is within `tol` of the matching
    /// entry of `other`.
    pub open spec fn approx_eq_spec(self, other: Matrix2x2, tol: int) -> bool {
        fxabs(self.at(0, 0) - other.at(0, 0)) <= tol && fxabs(self.at(0, 1) - other.at(0, 1))
            <= tol && fxabs(self.at(1, 0) - other.at(1, 0)) <= tol && fxabs(
            self.at(1, 1) - other.at(1, 1),
        ) <= tol
    }

    /// Compares two matrices entry by entry, within `tol` units.
    pub fn approx_eq_mat(&self, other: &Matrix2x2, tol: i64) -> (r: bool)
        requires
            tol >= 0,
        ensures
            r == self.approx_eq_spec(*other, tol as int),
    {
        scalar_close(self.entry(0, 0), other.entry(0, 0), tol) && scalar_close(
            self.entry(0, 1),
            other.entry(0, 1),
            tol,
        ) && scalar_close(self.entry(1, 0), other.entry(1, 0), tol) && scalar_close(
            self.entry(1, 1),
            other.entry(1, 1),
            tol,
        )
    }

    /// The widened, unrounded determinant `ad - bc`.
    pub open spec fn det_wide(self) -> int {
        self.at(0, 0) * self.at(1, 1) - self.at(0, 1) * self.at(1, 0)
    }

    /// The fixed-point determinant.
    pub open spec fn det_spec(self) -> int {
        round_div(self.det_wide(), SCALE as int)
    }

    /// Whether the determinant computation stays within machine range.
    pub open spec fn det_fits(self) -> bool {
        fxabs(self.at(0, 0) * self.at(1, 1)) + fxabs(self.at(0, 1) * self.at(1, 0))
            <= i64::MAX as int * SCALE as int
    }

    /// Computes the determinant by the closed form `ad - bc`.
    pub fn determinant(&self) -> (d: i64)
        requires
            self.det_fits(),
        ensures
            d as int == self.det_spec(),
    {
        let p0: i128 = self.entry(0, 0) as i128 * self.entry(1, 1) as i128;
        let p1: i128 = self.entry(0, 1) as i128 * self.entry(1, 0) as i128;
        fx_scale_down(p0 - p1)
    }
}

/// The widened, unrounded 2x2 determinant `ad - bc`.
pub open spec fn det2_wide(a: int, b: int, c: int, d: int) -> int {
    a * d - b * c
}

/// The first-row minors of a 3x3 matrix given by its nine entries.
pub open spec fn det3_minor0(
    e10: int,
    e11: int,
    e12: int,
    e20: int,
    e21: int,
    e22: int,
) -> int {
    round_div(det2_wide(e11, e12, e21, e22), SCALE as int)
}

/// See `det3_minor0`; this is the minor that deletes column 1.
pub open spec fn det3_minor1(
    e10: int,
    e11: int,
    e12: int,
    e20: int,
    e21: int,
    e22: int,
) -> int {
    round_div(det2_wide(e10, e12, e20, e22), SCALE as int)
}

/// See `det3_minor0`; this is the minor that deletes column 2.
pub open spec fn det3_minor2(
    e10: int,
    e11: int,
    e12: int,
    e20: int,
    e21: int,
    e22: int,
) -> int {
    round_div(det2_wide(e10, e11, e20, e21), SCALE as int)
}

/// The 3x3 fixed-point determinant by cofactor expansion along the first
/// row, over the nine entries in row-major order.
pub open spec fn det3_val(
    e00: int,
    e01: int,
    e02: int,
    e10: int,
    e11: int,
    e12: int,
    e20: int,
    e21: int,
    e22: int,
) -> int {
    round_div(e00 * det3_minor0(e10, e11, e12, e20, e21, e22), SCALE as int) - round_div(
        e01 * det3_minor1(e10, e11, e12, e20, e21, e22),
        SCALE as int,
    ) + round_div(e02 * det3_minor2(e10, e11, e12, e20, e21, e22), SCALE as int)
}

/// Whether the 3x3 determinant computation stays within machine range.
pub open spec fn det3_fits_val(
    e00: int,
    e01: int,
    e02: int,
    e10: int,
    e11: int,
    e12: int,
    e20: int,
    e21: int,
    e22: int,
) -> bool {
    fxabs(e11 * e22) + fxabs(e12 * e21) <= i64::MAX as int * SCALE as int && fxabs(e10 * e22)
        + fxabs(e12 * e20) <= i64::MAX as int * SCALE as int && fxabs(e10 * e21) + fxabs(
        e11 * e20,
    ) <= i64::MAX as int * SCALE as int && fxabs(
        e00 * det3_minor0(e10, e11, e12, e20, e21, e22),
    ) <= i64::MAX as int * SCALE as int && fxabs(
        e01 * det3_minor1(e10, e11, e12, e20, e21, e22),
    ) <= i64::MAX as int * SCALE as int && fxabs(
        e02 * det3_minor2(e10, e11, e12, e20, e21, e22),
    ) <= i64::MAX as int * SCALE as int && fxabs(
        det3_val(e00, e01, e02, e10, e11, e12, e20, e21, e22),
    ) <= i64::MAX as int
}

impl Matrix3x3 {
    /// The entry at row `r`, column `c`.
    pub closed spec fn at(self, r: int, c: int) -> int {
        self.m@[3 * r + c] as int
    }

    /// Builds the matrix from its nine entries, row-major.
    pub fn new(
        m00: i64,
        m01: i64,
        m02: i64,
        m10: i64,
        m11: i64,
        m12: i64,
        m20: i64,
        m21: i64,
        m22: i64,
    ) -> (r: Matrix3x3)
        ensures
            r.at(0, 0) == m00,
            r.at(0, 1) == m01,
            r.at(0, 2) == m02,
            r.at(1, 0) == m10,
            r.at(1, 1) == m11,
            r.at(1, 2) == m12,
            r.at(2, 0) == m20,
            r.at(2, 1) == m21,
            r.at(2, 2) == m22,
    {
        Matrix3x3 { m: [m00, m01, m02, m10, m11, m12, m20, m21, m22] }
    }

    /// Reads the entry at row `r`, column `c`.
    pub fn entry(&self, r: usize, c: usize) -> (v: i64)
        requires
            r < 3,
            c < 3,
        ensures
            v as int == self.at(r as int, c as int),
    {
        self.m[3 * r + c]
    }

    /// Whether every entry of `self` is within `tol` of the matching
    /// entry of `other`.
    pub open spec fn approx_eq_spec(self, other: Matrix3x3, tol: int) -> bool {
        fxabs(self.at(0, 0) - other.at(0, 0)) <= tol && fxabs(self.at(0, 1) - other.at(0, 1))
            <= tol && fxabs(self.at(0, 2) - other.at(0, 2)) <= tol && fxabs(
            self.at(1, 0) - other.at(1, 0),
        ) <= tol && fxabs(self.at(1, 1) - other.at(1, 1)) <= tol && fxabs(
            self.at(1, 2) - other.at(1, 2),
        ) <= tol && fxabs(self.at(2, 0) - other.at(2, 0)) <= tol && fxabs(
            self.at(2, 1) - other.at(2, 1),
        ) <= tol && fxabs(self.at(2, 2) - other.at(2, 2)) <= tol
    }

    /// Compares two matrices entry by entry, within `tol` units.
    pub fn approx_eq_mat(&self, other: &Matrix3x3, tol: i64) -> (r: bool)
        requires
            tol >= 0,
        ensures
            r == self.approx_eq_spec(*other, tol as int),
    {
        scalar_close(self.entry(0, 0), other.entry(0, 0), tol) && scalar_close(
            self.entry(0, 1),
            other.entry(0, 1),
            tol,
        ) && scalar_close(self.entry(0, 2), other.entry(0, 2), tol) && scalar_close(
            self.entry(1, 0),
            other.entry(1, 0),
            tol,
        ) && scalar_close(self.entry(1, 1), other.entry(1, 1), tol) && scalar_close(
            self.entry(1, 2),
            other.entry(1, 2),
            tol,
        ) && scalar_close(self.entry(2, 0), other.entry(2, 0), tol) && scalar_close(
            self.entry(2, 1),
            other.entry(2, 1),
            tol,
        ) && scalar_close(self.entry(2, 2), other.entry(2, 2), tol)
    }

    /// The submatrix that deletes row `row` and column `col`.
    pub fn submatrix(&self, row: usize, col: usize) -> (r: Matrix2x2)
        requires
            row < 3,
            col < 3,
        ensures
            r.at(0, 0) == self.at(skip(row as int, 0), skip(col as int, 0)),
            r.at(0, 1) == self.at(skip(row as int, 0), skip(col as int, 1)),
            r.at(1, 0) == self.at(skip(row as int, 1), skip(col as int, 0)),
            r.at(1, 1) == self.at(skip(row as int, 1), skip(col as int, 1)),
    {
        let r0: usize = skip_ex(row, 0);
        let r1: usize = skip_ex(row, 1);
        let c0: usize = skip_ex(col, 0);
        let c1: usize = skip_ex(col, 1);
        Matrix2x2::new(
            self.entry(r0, c0),
            self.entry(r0, c1),
            self.entry(r1, c0),
            self.entry(r1, c1),
        )
    }

    /// The fixed-point determinant, by cofactor expansion.
    pub open spec fn det_spec(self) -> int {
        det3_val(
            self.at(0, 0),
            self.at(0, 1),
            self.at(0, 2),
            self.at(1, 0),
            self.at(1, 1),
            self.at(1, 2),
            self.at(2, 0),
            self.at(2, 1),
            self.at(2, 2),
        )
    }

    /// Whether the determinant computation stays within machine range.
    pub open spec fn det_fits(self) -> bool {
        det3_fits_val(
            self.at(0, 0),
            self.at(0, 1),
            self.at(0, 2),
            self.at(1, 0),
            self.at(1, 1),
            self.at(1, 2),
            self.at(2, 0),
            self.at(2, 1),
            self.at(2, 2),
        )
    }

    /// Computes the determinant by cofactor expansion along the first
    /// row.
    pub fn determinant(&self) -> (d: i64)
        requires
            self.det_fits(),
        ensures
            d as int == self.det_spec(),
    {
        let m0: i64 = self.submatrix(0, 0).determinant();
        let m1: i64 = self.submatrix(0, 1).determinant();
        let m2: i64 = self.submatrix(0, 2).determinant();
        let t0: i64 = fx_mul(self.entry(0, 0), m0);
        let t1: i64 = fx_mul(self.entry(0, 1), m1);
        let t2: i64 = fx_mul(self.entry(0, 2), m2);
        let sum: i128 = t0 as i128 - t1 as i128 + t2 as i128;
        sum as i64
    }
}

/// The largest widened value the rescaling step accepts.
pub open spec fn fit_limit() -> int {
    i64::MAX as int * SCALE as int
}

impl Matrix4x4 {
    /// The entry at row `r`, column `c`.
    pub closed spec fn at(self, r: int, c: int) -> int {
        self.m@[4 * r + c] as int
    }

    /// The entry of the submatrix deleting row `row` and column `col`.
    pub open spec fn sub_at(self, row: int, col: int, r2: int, c2: int) -> int {
        self.at(skip(row, r2), skip(col, c2))
    }

    /// The minor at `(row, col)`: the determinant of the submatrix that
    /// deletes row `row` and column `col`.
    pub open spec fn minor_spec(self, row: int, col: int) -> int {
        det3_val(
            self.sub_at(row, col, 0, 0),
            self.sub_at(row, col, 0, 1),
            self.sub_at(row, col, 0, 2),
            self.sub_at(row, col, 1, 0),
            self.sub_at(row, col, 1, 1),
            self.sub_at(row, col, 1, 2),
            self.sub_at(row, col, 2, 0),
            self.sub_at(row, col, 2, 1),
            self.sub_at(row, col, 2, 2),
        )
    }

    /// Whether computing the minor at `(row, col)` stays within range.
    pub open spec fn minor_fits(self, row: int, col: int) -> bool {
        det3_fits_val(
            self.sub_at(row, col, 0, 0),
            self.sub_at(row, col, 0, 1),
            self.sub_at(row, col, 0, 2),
            self.sub_at(row, col, 1, 0),
            self.sub_at(row, col, 1, 1),
            self.sub_at(row, col, 1, 2),
            self.sub_at(row, col, 2, 0),
            self.sub_at(row, col, 2, 1),
            self.sub_at(row, col, 2, 2),
        )
    }

    /// The cofactor at `(row, col)`: the minor with sign `(-1)^(row+col)`.
    pub open spec fn cof_spec(self, row: int, col: int) -> int {
        if (row + col) % 2 == 0 {
            self.minor_spec(row, col)
        } else {
            -self.minor_spec(row, col)
        }
    }

    /// The fixed-point determinant, by cofactor expansion along the
    /// first row.
    pub open spec fn det_spec(self) -> int {
        round_div(self.at(0, 0) * self.minor_spec(0, 0), SCALE as int) - round_div(
            self.at(0, 1) * self.minor_spec(0, 1),
            SCALE as int,
        ) + round_div(self.at(0, 2) * self.minor_spec(0, 2), SCALE as int) - round_div(
            self.at(0, 3) * self.minor_spec(0, 3),
            SCALE as int,
        )
    }

    /// Whether the determinant computation stays within machine range.
    pub open spec fn det_fits(self) -> bool {
        self.minor_fits(0, 0) && self.minor_fits(0, 1) && self.minor_fits(0, 2)
            && self.minor_fits(0, 3) && fxabs(self.at(0, 0) * self.minor_spec(0, 0))
            <= fit_limit() && fxabs(self.at(0, 1) * self.minor_spec(0, 1)) <= fit_limit() && fxabs(
            self.at(0, 2) * self.minor_spec(0, 2),
        ) <= fit_limit() && fxabs(self.at(0, 3) * self.minor_spec(0, 3)) <= fit_limit() && fxabs(
            self.det_spec(),
        ) <= i64::MAX as int
    }

    /// Whether every minor of the matrix stays within machine range.
    pub open spec fn all_minors_fit(self) -> bool {
        forall|r: int, c: int| 0 <= r < 4 && 0 <= c < 4 ==> #[trigger] self.minor_fits(r, c)
    }

    /// Whether dividing every cofactor by the determinant stays within
    /// machine range, once the determinant clears the tolerance.
    pub open spec fn inv_div_fits(self) -> bool {
        fxabs(self.det_spec()) >= EPSILON ==> forall|r: int, c: int|
            0 <= r < 4 && 0 <= c < 4 ==> fxabs(#[trigger] self.cof_spec(r, c)) * SCALE as int
                <= i64::MAX as int * fxabs(self.det_spec())
    }

    /// The widened `(r, c)` entry of a matrix product, before rescaling.
    pub open spec fn mul_entry_wide(self, other: Matrix4x4, r: int, c: int) -> int {
        self.at(r, 0) * other.at(0, c) + self.at(r, 1) * other.at(1, c) + self.at(r, 2) * other.at(
            2,
            c,
        ) + self.at(r, 3) * other.at(3, c)
    }

    /// The fixed-point `(r, c)` entry of a matrix product.
    pub open spec fn mul_entry(self, other: Matrix4x4, r: int, c: int) -> int {
        round_div(self.mul_entry_wide(other, r, c), SCALE as int)
    }

    /// Whether one product entry stays within machine range.
    pub open spec fn mul_entry_fits(self, other: Matrix4x4, r: int, c: int) -> bool {
        fxabs(self.at(r, 0) * other.at(0, c)) + fxabs(self.at(r, 1) * other.at(1, c)) + fxabs(
            self.at(r, 2) * other.at(2, c),
        ) + fxabs(self.at(r, 3) * other.at(3, c)) <= fit_limit()
    }

    /// Whether the whole matrix product stays within machine range.
    pub open spec fn mul_fits(self, other: Matrix4x4) -> bool {
        forall|r: int, c: int| 0 <= r < 4 && 0 <= c < 4 ==> #[trigger] self.mul_entry_fits(
            other,
            r,
            c,
        )
    }

    /// Builds the matrix from its sixteen entries, row-major.
    pub fn new(
        m00: i64,
        m01: i64,
        m02: i64,
        m03: i64,
        m10: i64,
        m11: i64,
        m12: i64,
        m13: i64,
        m20: i64,
        m21: i64,
        m22: i64,
        m23: i64,
        m30: i64,
        m31: i64,
        m32: i64,
        m33: i64,
    ) -> (r: Matrix4x4)
        ensures
            r.at(0, 0) == m00,
            r.at(0, 1) == m01,
            r.at(0, 2) == m02,
            r.at(0, 3) == m03,
            r.at(1, 0) == m10,
            r.at(1, 1) == m11,
            r.at(1, 2) == m12,
            r.at(1, 3) == m13,
            r.at(2, 0) == m20,
            r.at(2, 1) == m21,
            r.at(2, 2) == m22,
            r.at(2, 3) == m23,
            r.at(3, 0) == m30,
            r.at(3, 1) == m31,
            r.at(3, 2) == m32,
            r.at(3, 3) == m33,
    {
        Matrix4x4 {
            m: [
                m00,
                m01,
                m02,
                m03,
                m10,
                m11,
                m12,
                m13,
                m20,
                m21,
                m22,
                m23,
                m30,
                m31,
                m32,
                m33,
            ],
        }
    }

    /// Reads the entry at row `r`, column `c`.
    pub fn entry(&self, r: usize, c: usize) -> (v: i64)
        requires
            r < 4,
            c < 4,
        ensures
            v as int == self.at(r as int, c as int),
    {
        self.m[4 * r + c]
    }

    /// Whether every entry of `self` is within `tol` of the matching
    /// entry of `other`.
    pub open spec fn approx_eq_spec(self, other: Matrix4x4, tol: int) -> bool {
        fxabs(self.at(0, 0) - other.at(0, 0)) <= tol && fxabs(self.at(0, 1) - other.at(0, 1))
            <= tol && fxabs(self.at(0, 2) - other.at(0, 2)) <= tol && fxabs(
            self.at(0, 3) - other.at(0, 3),
        ) <= tol && fxabs(self.at(1, 0) - other.at(1, 0)) <= tol && fxabs(
            self.at(1, 1) - other.at(1, 1),
        ) <= tol && fxabs(self.at(1, 2) - other.at(1, 2)) <= tol && fxabs(
            self.at(1, 3) - other.at(1, 3),
        ) <= tol && fxabs(self.at(2, 0) - other.at(2, 0)) <= tol && fxabs(
            self.at(2, 1) - other.at(2, 1),
        ) <= tol && fxabs(self.at(2, 2) - other.at(2, 2)) <= tol && fxabs(
            self.at(2, 3) - other.at(2, 3),
        ) <= tol && fxabs(self.at(3, 0) - other.at(3, 0)) <= tol && fxabs(
            self.at(3, 1) - other.at(3, 1),
        ) <= tol && fxabs(self.at(3, 2) - other.at(3, 2)) <= tol && fxabs(
            self.at(3, 3) - other.at(3, 3),
        ) <= tol
    }

    /// Compares two matrices entry by entry, within `tol` units.
    pub fn approx_eq_mat(&self, other: &Matrix4x4, tol: i64) -> (r: bool)
        requires
            tol >= 0,
        ensures
            r == self.approx_eq_spec(*other, tol as int),
    {
        scalar_close(self.entry(0, 0), other.entry(0, 0), tol) && scalar_close(
            self.entry(0, 1),
            other.entry(0, 1),
            tol,
        ) && scalar_close(self.entry(0, 2), other.entry(0, 2), tol) && scalar_close(
            self.entry(0, 3),
            other.entry(0, 3),
            tol,
        ) && scalar_close(self.entry(1, 0), other.entry(1, 0), tol) && scalar_close(
            self.entry(1, 1),
            other.entry(1, 1),
            tol,
        ) && scalar_close(self.entry(1, 2), other.entry(1, 2), tol) && scalar_close(
            self.entry(1, 3),
            other.entry(1, 3),
            tol,
        ) && scalar_close(self.entry(2, 0), other.entry(2, 0), tol) && scalar_close(
            self.entry(2, 1),
            other.entry(2, 1),
            tol,
        ) && scalar_close(self.entry(2, 2), other.entry(2, 2), tol) && scalar_close(
            self.entry(2, 3),
            other.entry(2, 3),
            tol,
        ) && scalar_close(self.entry(3, 0), other.entry(3, 0), tol) && scalar_close(
            self.entry(3, 1),
            other.entry(3, 1),
            tol,
        ) && scalar_close(self.entry(3, 2), other.entry(3, 2), tol) && scalar_close(
            self.entry(3, 3),
            other.entry(3, 3),
            tol,
        )
    }

    /// The identity transform: ones down the diagonal.
    pub fn identity() -> (r: Matrix4x4)
        ensures
            r.at(0, 0) == SCALE && r.at(0, 1) == 0 && r.at(0, 2) == 0 && r.at(0, 3) == 0,
            r.at(1, 0) == 0 && r.at(1, 1) == SCALE && r.at(1, 2) == 0 && r.at(1, 3) == 0,
            r.at(2, 0) == 0 && r.at(2, 1) == 0 && r.at(2, 2) == SCALE && r.at(2, 3) == 0,
            r.at(3, 0) == 0 && r.at(3, 1) == 0 && r.at(3, 2) == 0 && r.at(3, 3) == SCALE,
    {
        Matrix4x4::new(SCALE, 0, 0, 0, 0, SCALE, 0, 0, 0, 0, SCALE, 0, 0, 0, 0, SCALE)
    }

    /// The transpose: rows become columns.
    pub fn transpose(&self) -> (r: Matrix4x4)
        ensures
            forall|i: int, j: int| 0 <= i < 4 && 0 <= j < 4 ==> #[trigger] r.at(i, j) == self.at(
                j,
                i,
            ),
    {
        let r = Matrix4x4::new(
            self.entry(0, 0),
            self.entry(1, 0),
            self.entry(2, 0),
            self.entry(3, 0),
            self.entry(0, 1),
            self.entry(1, 1),
            self.entry(2, 1),
            self.entry(3, 1),
            self.entry(0, 2),
            self.entry(1, 2),
            self.entry(2, 2),
            self.entry(3, 2),
            self.entry(0, 3),
            self.entry(1, 3),
            self.entry(2, 3),
            self.entry(3, 3),
        );
        proof {
            assert forall|i: int, j: int| 0 <= i < 4 && 0 <= j < 4 implies #[trigger] r.at(i, j)
                == self.at(j, i) by {
                assert(i == 0 || i == 1 || i == 2 || i == 3);
                assert(j == 0 || j == 1 || j == 2 || j == 3);
            }
        }
        r
    }

    /// The submatrix that deletes row `row` and column `col`.
    pub fn submatrix(&self, row: usize, col: usize) -> (r: Matrix3x3)
        requires
            row < 4,
            col < 4,
        ensures
            r.at(0, 0) == self.sub_at(row as int, col as int, 0, 0),
            r.at(0, 1) == self.sub_at(row as int, col as int, 0, 1),
            r.at(0, 2) == self.sub_at(row as int, col as int, 0, 2),
            r.at(1, 0) == self.sub_at(row as int, col as int, 1, 0),
            r.at(1, 1) == self.sub_at(row as int, col as int, 1, 1),
            r.at(1, 2) == self.sub_at(row as int, col as int, 1, 2),
            r.at(2, 0) == self.sub_at(row as int, col as int, 2, 0),
            r.at(2, 1) == self.sub_at(row as int, col as int, 2, 1),
            r.at(2, 2) == self.sub_at(row as int, col as int, 2, 2),
    {
        let r0: usize = skip_ex(row, 0);
        let r1: usize = skip_ex(row, 1);
        let r2: usize = skip_ex(row, 2);
        let c0: usize = skip_ex(col, 0);
        let c1: usize = skip_ex(col, 1);
        let c2: usize = skip_ex(col, 2);
        Matrix3x3::new(
            self.entry(r0, c0),
            self.entry(r0, c1),
            self.entry(r0, c2),
            self.entry(r1, c0),
            self.entry(r1, c1),
            self.entry(r1, c2),
            self.entry(r2, c0),
            self.entry(r2, c1),
            self.entry(r2, c2),
        )
    }

    /// Computes the minor at `(row, col)`.
    pub fn minor(&self, row: usize, col: usize) -> (d: i64)
        requires
            row < 4,
            col < 4,
            self.minor_fits(row as int, col as int),
        ensures
            d as int == self.minor_spec(row as int, col as int),
    {
        self.submatrix(row, col).determinant()
    }

    /// Computes the cofactor at `(row, col)`.
    pub fn cofactor(&self, row: usize, col: usize) -> (d: i64)
        requires
            row < 4,
            col < 4,
            self.minor_fits(row as int, col as int),
        ensures
            d as int == self.cof_spec(row as int, col as int),
    {
        let m: i64 = self.minor(row, col);
        if (row + col) % 2 == 0 {
            m
        } else {
            -m
        }
    }

    /// Computes the determinant by cofactor expansion along the first
    /// row.
    pub fn determinant(&self) -> (d: i64)
        requires
            self.det_fits(),
        ensures
            d as int == self.det_spec(),
    {
        let m0: i64 = self.minor(0, 0);
        let m1: i64 = self.minor(0, 1);
        let m2: i64 = self.minor(0, 2);
        let m3: i64 = self.minor(0, 3);
        let t0: i64 = fx_mul(self.entry(0, 0), m0);
        let t1: i64 = fx_mul(self.entry(0, 1), m1);
        let t2: i64 = fx_mul(self.entry(0, 2), m2);
        let t3: i64 = fx_mul(self.entry(0, 3), m3);
        let sum: i128 = t0 as i128 - t1 as i128 + t2 as i128 - t3 as i128;
        sum as i64
    }

    /// Whether the matrix can be inverted: its determinant is not
    /// approximately zero.
    pub fn is_invertible(&self) -> (r: bool)
        requires
            self.det_fits(),
        ensures
            r == !approx_eq_spec(self.det_spec(), 0),
    {
        !approx_eq(self.determinant(), 0)
    }

    /// Standard row-by-column product of two 4x4 matrices.
    pub fn mul(&self, other: &Matrix4x4) -> (r: Matrix4x4)
        requires
            self.mul_fits(*other),
        ensures
            forall|i: int, j: int| 0 <= i < 4 && 0 <= j < 4 ==> #[trigger] r.at(i, j)
                == self.mul_entry(*other, i, j),
    {
        proof {
            assert forall|i: int, j: int| 0 <= i < 4 && 0 <= j < 4 implies #[trigger] self.mul_entry_fits(
                *other,
                i,
                j,
            ) by {}
        }
        let r = Matrix4x4::new(
            self.row_dot(other, 0, 0),
            self.row_dot(other, 0, 1),
            self.row_dot(other, 0, 2),
            self.row_dot(other, 0, 3),
            self.row_dot(other, 1, 0),
            self.row_dot(other, 1, 1),
            self.row_dot(other, 1, 2),
            self.row_dot(other, 1, 3),
            self.row_dot(other, 2, 0),
            self.row_dot(other, 2, 1),
            self.row_dot(other, 2, 2),
            self.row_dot(other, 2, 3),
            self.row_dot(other, 3, 0),
            self.row_dot(other, 3, 1),
            self.row_dot(other, 3, 2),
            self.row_dot(other, 3, 3),
        );
        proof {
            assert forall|i: int, j: int| 0 <= i < 4 && 0 <= j < 4 implies #[trigger] r.at(i, j)
                == self.mul_entry(*other, i, j) by {
                assert(i == 0 || i == 1 || i == 2 || i == 3);
                assert(j == 0 || j == 1 || j == 2 || j == 3);
            }
        }
        r
    }

    /// One entry of a matrix product: the dot product of row `r` of
    /// `self` with column `c` of `other`.
    fn row_dot(&self, other: &Matrix4x4, r: usize, c: usize) -> (v: i64)
        requires
            r < 4,
            c < 4,
            self.mul_entry_fits(*other, r as int, c as int),
        ensures
            v as int == self.mul_entry(*other, r as int, c as int),
    {
        fx_dot4(
            self.entry(r, 0),
            self.entry(r, 1),
            self.entry(r, 2),
            self.entry(r, 3),
            other.entry(0, c),
            other.entry(1, c),
            other.entry(2, c),
            other.entry(3, c),
        )
    }

    /// Inverts the matrix by the adjugate method: entry `(r, c)` of the
    /// inverse is `cofactor(c, r) / determinant`.  A matrix whose
    /// determinant is approximately zero is refused as `NotInvertible`.
    pub fn try_inverse(&self) -> (res: Result<Matrix4x4, AlgebraError>)
        requires
            self.det_fits(),
            self.all_minors_fit(),
            self.inv_div_fits(),
        ensures
            res is Err <==> approx_eq_spec(self.det_spec(), 0),
            res is Err ==> res->Err_0 == AlgebraError::NotInvertible,
            res is Ok ==> forall|i: int, j: int|
                0 <= i < 4 && 0 <= j < 4 ==> #[trigger] res->Ok_0.at(i, j) == rdiv(
                    self.cof_spec(j, i) * SCALE,
                    self.det_spec(),
                ),
    {
        let det: i64 = self.determinant();
        if approx_eq(det, 0) {
            return Err(AlgebraError::NotInvertible);
        }
        proof {
            assert forall|i: int, j: int| 0 <= i < 4 && 0 <= j < 4 implies #[trigger] self.minor_fits(
                i,
                j,
            ) && fxabs(self.cof_spec(i, j)) * SCALE as int <= i64::MAX as int * fxabs(
                self.det_spec(),
            ) by {}
        }
        let r = Matrix4x4::new(
            fx_div(self.cofactor(0, 0), det),
            fx_div(self.cofactor(1, 0), det),
            fx_div(self.cofactor(2, 0), det),
            fx_div(self.cofactor(3, 0), det),
            fx_div(self.cofactor(0, 1), det),
            fx_div(self.cofactor(1, 1), det),
            fx_div(self.cofactor(2, 1), det),
            fx_div(self.cofactor(3, 1), det),
            fx_div(self.cofactor(0, 2), det),
            fx_div(self.cofactor(1, 2), det),
            fx_div(self.cofactor(2, 2), det),
            fx_div(self.cofactor(3, 2), det),
            fx_div(self.cofactor(0, 3), det),
            fx_div(self.cofactor(1, 3), det),
            fx_div(self.cofactor(2, 3), det),
            fx_div(self.cofactor(3, 3), det),
        );
        proof {
            assert forall|i: int, j: int| 0 <= i < 4 && 0 <= j < 4 implies #[trigger] r.at(i, j)
                == rdiv(self.cof_spec(j, i) * SCALE, self.det_spec()) by {
                assert(i == 0 || i == 1 || i == 2 || i == 3);
                assert(j == 0 || j == 1 || j == 2 || j == 3);
            }
        }
        Ok(r)
    }
}

/// A product with a zero factor vanishes.
proof fn lemma_zero_product(a: int, b: int)
    requires
        a == 0 || b == 0,
    ensures
        a * b == 0,
{
    assert(a * b == 0) by (nonlinear_arith)
        requires
            a == 0 || b == 0,
    ;
}

/// Rounded division of zero gives zero.
proof fn lemma_round_div_zero(d: int)
    requires
        d > 0,
    ensures
        round_div(0, d) == 0,
{
    assert(0 * d == 0);
    crate::scalar::lemma_round_div_bound(0, d, 0);
}

/// A 3x3 determinant with a row of zeros is exactly zero.
proof fn lemma_det3_zero_row(
    e00: int,
    e01: int,
    e02: int,
    e10: int,
    e11: int,
    e12: int,
    e20: int,
    e21: int,
    e22: int,
    row: int,
)
    requires
        0 <= row < 3,
        row == 0 ==> e00 == 0 && e01 == 0 && e02 == 0,
        row == 1 ==> e10 == 0 && e11 == 0 && e12 == 0,
        row == 2 ==> e20 == 0 && e21 == 0 && e22 == 0,
    ensures
        det3_val(e00, e01, e02, e10, e11, e12, e20, e21, e22) == 0,
{
    lemma_round_div_zero(SCALE as int);
    if row == 0 {
        lemma_zero_product(e00, det3_minor0(e10, e11, e12, e20, e21, e22));
        lemma_zero_product(e01, det3_minor1(e10, e11, e12, e20, e21, e22));
        lemma_zero_product(e02, det3_minor2(e10, e11, e12, e20, e21, e22));
    } else {
        lemma_zero_product(e11, e22);
        lemma_zero_product(e12, e21);
        lemma_zero_product(e10, e22);
        lemma_zero_product(e12, e20);
        lemma_zero_product(e10, e21);
        lemma_zero_product(e11, e20);
        assert(det3_minor0(e10, e11, e12, e20, e21, e22) == 0);
        assert(det3_minor1(e10, e11, e12, e20, e21, e22) == 0);
        assert(det3_minor2(e10, e11, e12, e20, e21, e22) == 0);
        lemma_zero_product(e00, 0);
        lemma_zero_product(e01, 0);
        lemma_zero_product(e02, 0);
    }
}

/// A singular matrix in its plainest form: a 4x4 matrix with a row of
/// zeros has a determinant of exactly zero, so it is approximately zero
/// under the scalar tolerance and inversion is refused.
pub proof fn lemma_zero_row_determinant(m: Matrix4x4, row: int)
    requires
        0 <= row < 4,
        m.at(row, 0) == 0,
        m.at(row, 1) == 0,
        m.at(row, 2) == 0,
        m.at(row, 3) == 0,
    ensures
        m.det_spec() == 0,
        approx_eq_spec(m.det_spec(), 0),
{
    lemma_round_div_zero(SCALE as int);
    if row == 0 {
        lemma_zero_product(m.at(0, 0), m.minor_spec(0, 0));
        lemma_zero_product(m.at(0, 1), m.minor_spec(0, 1));
        lemma_zero_product(m.at(0, 2), m.minor_spec(0, 2));
        lemma_zero_product(m.at(0, 3), m.minor_spec(0, 3));
    } else {
        let r2 = row - 1;
        lemma_det3_zero_row(
            m.sub_at(0, 0, 0, 0),
            m.sub_at(0, 0, 0, 1),
            m.sub_at(0, 0, 0, 2),
            m.sub_at(0, 0, 1, 0),
            m.sub_at(0, 0, 1, 1),
            m.sub_at(0, 0, 1, 2),
            m.sub_at(0, 0, 2, 0),
            m.sub_at(0, 0, 2, 1),
            m.sub_at(0, 0, 2, 2),
            r2,
        );
        lemma_det3_zero_row(
            m.sub_at(0, 1, 0, 0),
            m.sub_at(0, 1, 0, 1),
            m.sub_at(0, 1, 0, 2),
            m.sub_at(0, 1, 1, 0),
            m.sub_at(0, 1, 1, 1),
            m.sub_at(0, 1, 1, 2),
            m.sub_at(0, 1, 2, 0),
            m.sub_at(0, 1, 2, 1),
            m.sub_at(0, 1, 2, 2),
            r2,
        );
        lemma_det3_zero_row(
            m.sub_at(0, 2, 0, 0),
            m.sub_at(0, 2, 0, 1),
            m.sub_at(0, 2, 0, 2),
            m.sub_at(0, 2, 1, 0),
            m.sub_at(0, 2, 1, 1),
            m.sub_at(0, 2, 1, 2),
            m.sub_at(0, 2, 2, 0),
            m.sub_at(0, 2, 2, 1),
            m.sub_at(0, 2, 2, 2),
            r2,
        );
        lemma_det3_zero_row(
            m.sub_at(0, 3, 0, 0),
            m.sub_at(0, 3, 0, 1),
            m.sub_at(0, 3, 0, 2),
            m.sub_at(0, 3, 1, 0),
            m.sub_at(0, 3, 1, 1),
            m.sub_at(0, 3, 1, 2),
            m.sub_at(0, 3, 2, 0),
            m.sub_at(0, 3, 2, 1),
            m.sub_at(0, 3, 2, 2),
            r2,
        );
        lemma_zero_product(m.at(0, 0), 0);
        lemma_zero_product(m.at(0, 1), 0);
        lemma_zero_product(m.at(0, 2), 0);
        lemma_zero_product(m.at(0, 3), 0);
    }
}

impl Matrix4x1 {
    /// The component at row `i`.
    pub closed spec fn at(self, i: int) -> int {
        self.m@[i] as int
    }

    /// Builds the column from its four components.
    pub fn new(x0: i64, x1: i64, x2: i64, x3: i64) -> (r: Matrix4x1)
        ensures
            r.at(0) == x0,
            r.at(1) == x1,
            r.at(2) == x2,
            r.at(3) == x3,
    {
        Matrix4x1 { m: [x0, x1, x2, x3] }
    }

    /// Reads the component at row `i`.
    pub fn entry(&self, i: usize) -> (v: i64)
        requires
            i < 4,
        ensures
            v as int == self.at(i as int),
    {
        self.m[i]
    }
}

/// The widened row `r` of a transform applied to a column.
pub open spec fn mat41_entry_wide(m: Matrix4x4, v: Matrix4x1, r: int) -> int {
    m.at(r, 0) * v.at(0) + m.at(r, 1) * v.at(1) + m.at(r, 2) * v.at(2) + m.at(r, 3) * v.at(3)
}

/// The fixed-point row `r` of a transform applied to a column.
pub open spec fn mat41_entry(m: Matrix4x4, v: Matrix4x1, r: int) -> int {
    round_div(mat41_entry_wide(m, v, r), SCALE as int)
}

/// Whether row `r` of a transform application stays within range.
pub open spec fn mat41_entry_fits(m: Matrix4x4, v: Matrix4x1, r: int) -> bool {
    fxabs(m.at(r, 0) * v.at(0)) + fxabs(m.at(r, 1) * v.at(1)) + fxabs(m.at(r, 2) * v.at(2))
        + fxabs(m.at(r, 3) * v.at(3)) <= fit_limit()
}

/// Applies a 4x4 transform to a 4x1 column.
pub fn mul_4x4_and_4x1(m1: &Matrix4x4, m2: &Matrix4x1) -> (r: Matrix4x1)
    requires
        mat41_entry_fits(*m1, *m2, 0),
        mat41_entry_fits(*m1, *m2, 1),
        mat41_entry_fits(*m1, *m2, 2),
        mat41_entry_fits(*m1, *m2, 3),
    ensures
        r.at(0) == mat41_entry(*m1, *m2, 0),
        r.at(1) == mat41_entry(*m1, *m2, 1),
        r.at(2) == mat41_entry(*m1, *m2, 2),
        r.at(3) == mat41_entry(*m1, *m2, 3),
{
    Matrix4x1::new(
        fx_dot4(
            m1.entry(0, 0),
            m1.entry(0, 1),
            m1.entry(0, 2),
            m1.entry(0, 3),
            m2.entry(0),
            m2.entry(1),
            m2.entry(2),
            m2.entry(3),
        ),
        fx_dot4(
            m1.entry(1, 0),
            m1.entry(1, 1),
            m1.entry(1, 2),
            m1.entry(1, 3),
            m2.entry(0),
            m2.entry(1),
            m2.entry(2),
            m2.entry(3),
        ),
        fx_dot4(
            m1.entry(2, 0),
            m1.entry(2, 1),
            m1.entry(2, 2),
            m1.entry(2, 3),
            m2.entry(0),
            m2.entry(1),
            m2.entry(2),
            m2.entry(3),
        ),
        fx_dot4(
            m1.entry(3, 0),
            m1.entry(3, 1),
            m1.entry(3, 2),
            m1.entry(3, 3),
            m2.entry(0),
            m2.entry(1),
            m2.entry(2),
            m2.entry(3),
        ),
    )
}

/// Lays a tuple out as a 4x1 column.
pub fn tup_into_4x1(t: Tuple) -> (r: Matrix4x1)
    ensures
        r.at(0) == t.0,
        r.at(1) == t.1,
        r.at(2) == t.2,
        r.at(3) == t.3,
{
    Matrix4x1::new(t.0, t.1, t.2, t.3)
}

/// Reads a 4x1 column back into a tuple.
pub fn m4x1_into_tup(m: &Matrix4x1) -> (t: Tuple)
    ensures
        t.0 == m.at(0),
        t.1 == m.at(1),
        t.2 == m.at(2),
        t.3 == m.at(3),
{
    (m.entry(0), m.entry(1), m.entry(2), m.entry(3))
}

/// Whether `m` is the affine translation by `(x, y, z)`: the identity
/// with its top-right column set to the offsets.
pub open spec fn is_translation(m: Matrix4x4, x: int, y: int, z: int) -> bool {
    m.at(0, 0) == SCALE && m.at(0, 1) == 0 && m.at(0, 2) == 0 && m.at(0, 3) == x && m.at(1, 0)
        == 0 && m.at(1, 1) == SCALE && m.at(1, 2) == 0 && m.at(1, 3) == y && m.at(2, 0) == 0
        && m.at(2, 1) == 0 && m.at(2, 2) == SCALE && m.at(2, 3) == z && m.at(3, 0) == 0 && m.at(
        3,
        1,
    ) == 0 && m.at(3, 2) == 0 && m.at(3, 3) == SCALE
}

/// Builds the affine translation by `(x, y, z)`.
pub fn translation(x: i64, y: i64, z: i64) -> (r: Matrix4x4)
    ensures
        is_translation(r, x as int, y as int, z as int),
{
    Matrix4x4::new(SCALE, 0, 0, x, 0, SCALE, 0, y, 0, 0, SCALE, z, 0, 0, 0, SCALE)
}

/// Applying a translation to a vector (a column whose discriminator is
/// zero) leaves it exactly unchanged: the translation column is
/// multiplied by the zero discriminator, so only the identity part acts.
pub proof fn lemma_translation_fixes_vectors(t: Matrix4x4, v: Matrix4x1, x: int, y: int, z: int)
    requires
        is_translation(t, x, y, z),
        v.at(3) == 0,
        fxabs(v.at(0)) <= i64::MAX,
        fxabs(v.at(1)) <= i64::MAX,
        fxabs(v.at(2)) <= i64::MAX,
    ensures
        mat41_entry_fits(t, v, 0),
        mat41_entry_fits(t, v, 1),
        mat41_entry_fits(t, v, 2),
        mat41_entry_fits(t, v, 3),
        mat41_entry(t, v, 0) == v.at(0),
        mat41_entry(t, v, 1) == v.at(1),
        mat41_entry(t, v, 2) == v.at(2),
        mat41_entry(t, v, 3) == 0,
{
    lemma_translation_row_fixed(t.at(0, 3), v.at(0));
    lemma_translation_row_fixed(t.at(1, 3), v.at(1));
    lemma_translation_row_fixed(t.at(2, 3), v.at(2));
    lemma_translation_row_fixed(t.at(3, 3), 0);
    assert(mat41_entry_wide(t, v, 0) == SCALE as int * v.at(0) + t.at(0, 3) * 0);
    assert(mat41_entry_wide(t, v, 3) == SCALE as int * 0 + t.at(3, 3) * 0);
}

/// One row of a translation applied to a vector: the diagonal term alone
/// survives, and rescaling it is exact.
proof fn lemma_translation_row_fixed(off: int, c: int)
    requires
        fxabs(c) <= i64::MAX,
    ensures
        off * 0 == 0,
        0 * c == 0,
        fxabs(SCALE as int * c) <= fit_limit(),
        round_div(SCALE as int * c + off * 0, SCALE as int) == c,
{
    vstd::arithmetic::mul::lemma_mul_is_commutative(SCALE as int, c);
    crate::scalar::lemma_abs_mul(c, SCALE as int);
    assert(fxabs(c) * SCALE as int <= i64::MAX as int * SCALE as int) by {
        vstd::arithmetic::mul::lemma_mul_inequality(fxabs(c), i64::MAX as int, SCALE as int);
    }
    assert(fit_limit() == i64::MAX as int * SCALE as int);
    lemma_round_div_exact(c, SCALE as int);
}

/// Applying a translation to a point moves the point by exactly the
/// translation offsets, and leaves the discriminator a point's.
pub proof fn lemma_translation_moves_points(t: Matrix4x4, p: Matrix4x1, x: int, y: int, z: int)
    requires
        is_translation(t, x, y, z),
        p.at(3) == SCALE,
        fxabs(p.at(0)) + fxabs(x) <= i64::MAX,
        fxabs(p.at(1)) + fxabs(y) <= i64::MAX,
        fxabs(p.at(2)) + fxabs(z) <= i64::MAX,
    ensures
        mat41_entry_fits(t, p, 0),
        mat41_entry_fits(t, p, 1),
        mat41_entry_fits(t, p, 2),
        mat41_entry_fits(t, p, 3),
        mat41_entry(t, p, 0) == p.at(0) + x,
        mat41_entry(t, p, 1) == p.at(1) + y,
        mat41_entry(t, p, 2) == p.at(2) + z,
        mat41_entry(t, p, 3) == SCALE,
{
    lemma_translation_row_moved(p.at(0), x);
    lemma_translation_row_moved(p.at(1), y);
    lemma_translation_row_moved(p.at(2), z);
    assert(mat41_entry_wide(t, p, 0) == SCALE as int * p.at(0) + x * SCALE as int);
    assert(mat41_entry_wide(t, p, 1) == SCALE as int * p.at(1) + y * SCALE as int);
    assert(mat41_entry_wide(t, p, 2) == SCALE as int * p.at(2) + z * SCALE as int);
    assert(mat41_entry_wide(t, p, 3) == SCALE as int * SCALE as int);
    assert(mat41_entry(t, p, 3) == SCALE) by {
        vstd::arithmetic::mul::lemma_mul_is_commutative(SCALE as int, SCALE as int);
        lemma_round_div_exact(SCALE as int, SCALE as int);
        crate::scalar::lemma_abs_mul(SCALE as int, SCALE as int);
    }
}

/// One row of a translation applied to a point: the diagonal and offset
/// terms sum to `(c + off) * SCALE`, whose rescaling is exact.
proof fn lemma_translation_row_moved(c: int, off: int)
    requires
        fxabs(c) + fxabs(off) <= i64::MAX,
    ensures
        fxabs(SCALE as int * c) + fxabs(off * SCALE as int) <= fit_limit(),
        round_div(SCALE as int * c + off * SCALE as int, SCALE as int) == c + off,
{
    vstd::arithmetic::mul::lemma_mul_is_commutative(SCALE as int, c);
    crate::scalar::lemma_abs_mul(c, SCALE as int);
    crate::scalar::lemma_abs_mul(off, SCALE as int);
    assert((fxabs(c) + fxabs(off)) * SCALE as int <= i64::MAX as int * SCALE as int) by {
        vstd::arithmetic::mul::lemma_mul_inequality(
            fxabs(c) + fxabs(off),
            i64::MAX as int,
            SCALE as int,
        );
    }
    assert((fxabs(c) + fxabs(off)) * SCALE as int == fxabs(c) * SCALE as int + fxabs(off)
        * SCALE as int) by {
        vstd::arithmetic::mul::lemma_mul_is_distributive_add_other_way(
            SCALE as int,
            fxabs(c),
            fxabs(off),
        );
    }
    assert(SCALE as int * c + off * SCALE as int == (c + off) * SCALE as int) by {
        vstd::arithmetic::mul::lemma_mul_is_distributive_add_other_way(SCALE as int, c, off);
    }
    lemma_round_div_exact(c + off, SCALE as int);
}

/// The exact (unscaled) 2x2 integer determinant.
pub open spec fn idet2(a: int, b: int, c: int, d: int) -> int {
    a * d - b * c
}

/// The exact 3x3 integer determinant over nine entries in row-major
/// order, by cofactor expansion along the first row.
pub open spec fn idet3(
    e00: int,
    e01: int,
    e02: int,
    e10: int,
    e11: int,
    e12: int,
    e20: int,
    e21: int,
    e22: int,
) -> int {
    e00 * idet2(e11, e12, e21, e22) - e01 * idet2(e10, e12, e20, e22) + e02 * idet2(
        e10,
        e11,
        e20,
        e21,
    )
}

impl Matrix4x4 {
    /// Whether every entry is a whole number of units.
    pub open spec fn aligned(self) -> bool {
        forall|r: int, c: int|
            0 <= r < 4 && 0 <= c < 4 ==> #[trigger] self.at(r, c) % (SCALE as int) == 0
    }

    /// The whole-unit value of the entry at `(r, c)`.
    pub open spec fn iw(self, r: int, c: int) -> int {
        self.at(r, c) / (SCALE as int)
    }

    /// The exact integer minor at `(row, col)` of a whole-valued matrix.
    pub open spec fn iminor(self, row: int, col: int) -> int {
        idet3(
            self.iw(skip(row, 0), skip(col, 0)),
            self.iw(skip(row, 0), skip(col, 1)),
            self.iw(skip(row, 0), skip(col, 2)),
            self.iw(skip(row, 1), skip(col, 0)),
            self.iw(skip(row, 1), skip(col, 1)),
            self.iw(skip(row, 1), skip(col, 2)),
            self.iw(skip(row, 2), skip(col, 0)),
            self.iw(skip(row, 2), skip(col, 1)),
            self.iw(skip(row, 2), skip(col, 2)),
        )
    }

    /// The exact integer cofactor at `(row, col)`.
    pub open spec fn icof(self, row: int, col: int) -> int {
        if (row + col) % 2 == 0 {
            self.iminor(row, col)
        } else {
            -self.iminor(row, col)
        }
    }

    /// The exact integer determinant of a whole-valued matrix.
    pub open spec fn idet(self) -> int {
        self.iw(0, 0) * self.iminor(0, 0) - self.iw(0, 1) * self.iminor(0, 1) + self.iw(0, 2)
            * self.iminor(0, 2) - self.iw(0, 3) * self.iminor(0, 3)
    }
}

/// An entry that is a whole number of units is its whole value scaled.
proof fn lemma_aligned_val(v: int)
    requires
        v % (SCALE as int) == 0,
    ensures
        v == SCALE as int * (v / SCALE as int),
{
    vstd::arithmetic::div_mod::lemma_fundamental_div_mod(v, SCALE as int);
}

/// The rounded 2x2 determinant of whole-valued entries is exact: one
/// scale factor survives the rescaling.
proof fn lemma_det2_scale(a: int, b: int, c: int, d: int)
    requires
        a % (SCALE as int) == 0,
        b % (SCALE as int) == 0,
        c % (SCALE as int) == 0,
        d % (SCALE as int) == 0,
    ensures
        round_div(det2_wide(a, b, c, d), SCALE as int) == SCALE as int * idet2(
            a / (SCALE as int),
            b / (SCALE as int),
            c / (SCALE as int),
            d / (SCALE as int),
        ),
{
    let k: int = SCALE as int;
    let a2: int = a / k;
    let b2: int = b / k;
    let c2: int = c / k;
    let d2: int = d / k;
    lemma_aligned_val(a);
    lemma_aligned_val(b);
    lemma_aligned_val(c);
    lemma_aligned_val(d);
    let x: int = a2 * d2 - b2 * c2;
    assert(a * d == k * (k * (a2 * d2))) by {
        assert(a * d == (k * a2) * (k * d2));
        vstd::arithmetic::mul::lemma_mul_is_associative(k, a2, k * d2);
        lemma_triple_comm(a2, k, d2);
    }
    assert(b * c == k * (k * (b2 * c2))) by {
        assert(b * c == (k * b2) * (k * c2));
        vstd::arithmetic::mul::lemma_mul_is_associative(k, b2, k * c2);
        lemma_triple_comm(b2, k, c2);
    }
    assert((k * x) * k == k * (k * x)) by {
        vstd::arithmetic::mul::lemma_mul_is_associative(k, x, k);
        vstd::arithmetic::mul::lemma_mul_is_commutative(x, k);
    }
    assert(k * x == k * (a2 * d2) - k * (b2 * c2)) by {
        lemma_distr2(k, a2 * d2, b2 * c2);
    }
    assert(k * (k * x) == k * (k * (a2 * d2)) - k * (k * (b2 * c2))) by {
        lemma_distr2(k, k * (a2 * d2), k * (b2 * c2));
    }
    lemma_round_div_exact(k * x, k);
}

/// The rounded 3x3 determinant of whole-valued entries is exact.
proof fn lemma_det3_scale(
    e00: int,
    e01: int,
    e02: int,
    e10: int,
    e11: int,
    e12: int,
    e20: int,
    e21: int,
    e22: int,
)
    requires
        e00 % (SCALE as int) == 0,
        e01 % (SCALE as int) == 0,
        e02 % (SCALE as int) == 0,
        e10 % (SCALE as int) == 0,
        e11 % (SCALE as int) == 0,
        e12 % (SCALE as int) == 0,
        e20 % (SCALE as int) == 0,
        e21 % (SCALE as int) == 0,
        e22 % (SCALE as int) == 0,
    ensures
        det3_val(e00, e01, e02, e10, e11, e12, e20, e21, e22) == SCALE as int * idet3(
            e00 / (SCALE as int),
            e01 / (SCALE as int),
            e02 / (SCALE as int),
            e10 / (SCALE as int),
            e11 / (SCALE as int),
            e12 / (SCALE as int),
            e20 / (SCALE as int),
            e21 / (SCALE as int),
            e22 / (SCALE as int),
        ),
{
    let k: int = SCALE as int;
    let w00: int = e00 / k;
    let w01: int = e01 / k;
    let w02: int = e02 / k;
    let w10: int = e10 / k;
    let w11: int = e11 / k;
    let w12: int = e12 / k;
    let w20: int = e20 / k;
    let w21: int = e21 / k;
    let w22: int = e22 / k;
    lemma_aligned_val(e00);
    lemma_aligned_val(e01);
    lemma_aligned_val(e02);
    lemma_det2_scale(e11, e12, e21, e22);
    lemma_det2_scale(e10, e12, e20, e22);
    lemma_det2_scale(e10, e11, e20, e21);
    let m0: int = idet2(w11, w12, w21, w22);
    let m1: int = idet2(w10, w12, w20, w22);
    let m2: int = idet2(w10, w11, w20, w21);
    lemma_scale_twice(k, e00, w00, m0);
    lemma_scale_twice(k, e01, w01, m1);
    lemma_scale_twice(k, e02, w02, m2);
    lemma_round_div_exact(k * (w00 * m0), k);
    lemma_round_div_exact(k * (w01 * m1), k);
    lemma_round_div_exact(k * (w02 * m2), k);
    assert(k * (w00 * m0 - w01 * m1 + w02 * m2) == k * (w00 * m0) - k * (w01 * m1) + k * (w02
        * m2)) by {
        lemma_distr3(k, w00 * m0, w01 * m1, w02 * m2);
    }
}

/// The rounded minor and cofactor of a whole-valued matrix are exact.
proof fn lemma_minor_scale(m: Matrix4x4, row: int, col: int)
    requires
        m.aligned(),
        0 <= row < 4,
        0 <= col < 4,
    ensures
        m.minor_spec(row, col) == SCALE as int * m.iminor(row, col),
        m.cof_spec(row, col) == SCALE as int * m.icof(row, col),
{
    assert(m.at(skip(row, 0), skip(col, 0)) % (SCALE as int) == 0);
    assert(m.at(skip(row, 0), skip(col, 1)) % (SCALE as int) == 0);
    assert(m.at(skip(row, 0), skip(col, 2)) % (SCALE as int) == 0);
    assert(m.at(skip(row, 1), skip(col, 0)) % (SCALE as int) == 0);
    assert(m.at(skip(row, 1), skip(col, 1)) % (SCALE as int) == 0);
    assert(m.at(skip(row, 1), skip(col, 2)) % (SCALE as int) == 0);
    assert(m.at(skip(row, 2), skip(col, 0)) % (SCALE as int) == 0);
    assert(m.at(skip(row, 2), skip(col, 1)) % (SCALE as int) == 0);
    assert(m.at(skip(row, 2), skip(col, 2)) % (SCALE as int) == 0);
    lemma_det3_scale(
        m.sub_at(row, col, 0, 0),
        m.sub_at(row, col, 0, 1),
        m.sub_at(row, col, 0, 2),
        m.sub_at(row, col, 1, 0),
        m.sub_at(row, col, 1, 1),
        m.sub_at(row, col, 1, 2),
        m.sub_at(row, col, 2, 0),
        m.sub_at(row, col, 2, 1),
        m.sub_at(row, col, 2, 2),
    );
    assert(-(SCALE as int * m.iminor(row, col)) == SCALE as int * (-m.iminor(row, col))) by {
        vstd::arithmetic::mul::lemma_mul_unary_negation(SCALE as int, m.iminor(row, col));
    }
}

/// The rounded determinant of a whole-valued matrix is exact.
pub proof fn lemma_det_scale(m: Matrix4x4)
    requires
        m.aligned(),
    ensures
        m.det_spec() == SCALE as int * m.idet(),
{
    let k: int = SCALE as int;
    lemma_minor_scale(m, 0, 0);
    lemma_minor_scale(m, 0, 1);
    lemma_minor_scale(m, 0, 2);
    lemma_minor_scale(m, 0, 3);
    assert(m.at(0, 0) % k == 0);
    assert(m.at(0, 1) % k == 0);
    assert(m.at(0, 2) % k == 0);
    assert(m.at(0, 3) % k == 0);
    lemma_aligned_val(m.at(0, 0));
    lemma_aligned_val(m.at(0, 1));
    lemma_aligned_val(m.at(0, 2));
    lemma_aligned_val(m.at(0, 3));
    let w0: int = m.iw(0, 0);
    let w1: int = m.iw(0, 1);
    let w2: int = m.iw(0, 2);
    let w3: int = m.iw(0, 3);
    let i0: int = m.iminor(0, 0);
    let i1: int = m.iminor(0, 1);
    let i2: int = m.iminor(0, 2);
    let i3: int = m.iminor(0, 3);
    lemma_scale_twice(k, m.at(0, 0), w0, i0);
    lemma_scale_twice(k, m.at(0, 1), w1, i1);
    lemma_scale_twice(k, m.at(0, 2), w2, i2);
    lemma_scale_twice(k, m.at(0, 3), w3, i3);
    lemma_round_div_exact(k * (w0 * i0), k);
    lemma_round_div_exact(k * (w1 * i1), k);
    lemma_round_div_exact(k * (w2 * i2), k);
    lemma_round_div_exact(k * (w3 * i3), k);
    assert(k * (w0 * i0 - w1 * i1 + w2 * i2 - w3 * i3) == k * (w0 * i0) - k * (w1 * i1) + k * (w2
        * i2) - k * (w3 * i3)) by {
        lemma_distr4(k, w0 * i0, w1 * i1, w2 * i2, w3 * i3);
    }
}

/// A row dotted against minors built from the same row, with
/// alternating signs, cancels to nothing.
pub open spec fn bil(
    x0: int,
    x1: int,
    x2: int,
    x3: int,
    y0: int,
    y1: int,
    y2: int,
    y3: int,
    p01: int,
    p02: int,
    p03: int,
    p12: int,
    p13: int,
    p23: int,
) -> int {
    x0 * (y1 * p23 - y2 * p13 + y3 * p12) - x1 * (y0 * p23 - y2 * p03 + y3 * p02) + x2 * (y0 * p13
        - y1 * p03 + y3 * p01) - x3 * (y0 * p12 - y1 * p02 + y2 * p01)
}

/// Products commute with their leading factors: `a (b c) = b (a c)`.
proof fn lemma_triple_comm(a: int, b: int, c: int)
    ensures
        a * (b * c) == b * (a * c),
{
    vstd::arithmetic::mul::lemma_mul_is_associative(a, b, c);
    vstd::arithmetic::mul::lemma_mul_is_associative(b, a, c);
    vstd::arithmetic::mul::lemma_mul_is_commutative(a, b);
}

/// Distributes one factor over a three-term alternating sum.
proof fn lemma_distr3(x: int, a: int, b: int, c: int)
    ensures
        x * (a - b + c) == x * a - x * b + x * c,
{
    vstd::arithmetic::mul::lemma_mul_is_distributive_add(x, a - b, c);
    vstd::arithmetic::mul::lemma_mul_is_distributive_sub(x, a, b);
}

/// One aligned factor against a rescaled value: pulling both scale
/// factors out front.
proof fn lemma_scale_twice(k: int, e: int, w: int, m: int)
    requires
        e == k * w,
    ensures
        e * (k * m) == (k * (w * m)) * k,
{
    assert(e * (k * m) == (k * w) * (k * m));
    vstd::arithmetic::mul::lemma_mul_is_associative(k, w, k * m);
    lemma_triple_comm(w, k, m);
    vstd::arithmetic::mul::lemma_mul_is_associative(k, w * m, k);
    vstd::arithmetic::mul::lemma_mul_is_commutative(w * m, k);
}

/// Distributes one factor over a four-term alternating sum.
proof fn lemma_distr4(x: int, a: int, b: int, c: int, d: int)
    ensures
        x * (a - b + c - d) == x * a - x * b + x * c - x * d,
{
    vstd::arithmetic::mul::lemma_mul_is_distributive_add(x, a - b, c - d);
    vstd::arithmetic::mul::lemma_mul_is_distributive_sub(x, a, b);
    vstd::arithmetic::mul::lemma_mul_is_distributive_sub(x, c, d);
}

/// Distributes one factor over a difference.
proof fn lemma_distr2(x: int, a: int, b: int)
    ensures
        x * (a - b) == x * a - x * b,
{
    vstd::arithmetic::mul::lemma_mul_is_distributive_sub(x, a, b);
}

/// Products commute with their trailing factors: `a (b c) = c (a b)`.
proof fn lemma_triple_comm3(a: int, b: int, c: int)
    ensures
        a * (b * c) == c * (a * b),
{
    vstd::arithmetic::mul::lemma_mul_is_associative(a, b, c);
    vstd::arithmetic::mul::lemma_mul_is_commutative(a * b, c);
}

/// The alternating bilinear form vanishes on a repeated row.
proof fn lemma_bil_alternating(
    y0: int,
    y1: int,
    y2: int,
    y3: int,
    p01: int,
    p02: int,
    p03: int,
    p12: int,
    p13: int,
    p23: int,
)
    ensures
        bil(y0, y1, y2, y3, y0, y1, y2, y3, p01, p02, p03, p12, p13, p23) == 0,
{
    lemma_distr3(y0, y1 * p23, y2 * p13, y3 * p12);
    lemma_distr3(y1, y0 * p23, y2 * p03, y3 * p02);
    lemma_distr3(y2, y0 * p13, y1 * p03, y3 * p01);
    lemma_distr3(y3, y0 * p12, y1 * p02, y2 * p01);
    lemma_triple_comm(y0, y1, p23);
    lemma_triple_comm(y0, y2, p13);
    lemma_triple_comm(y0, y3, p12);
    lemma_triple_comm(y1, y2, p03);
    lemma_triple_comm(y1, y3, p02);
    lemma_triple_comm(y2, y3, p01);
}

/// Swapping the two rows of the alternating bilinear form flips its
/// sign.
proof fn lemma_bil_swap(
    x0: int,
    x1: int,
    x2: int,
    x3: int,
    y0: int,
    y1: int,
    y2: int,
    y3: int,
    p01: int,
    p02: int,
    p03: int,
    p12: int,
    p13: int,
    p23: int,
)
    ensures
        bil(x0, x1, x2, x3, y0, y1, y2, y3, p01, p02, p03, p12, p13, p23) == -bil(
            y0,
            y1,
            y2,
            y3,
            x0,
            x1,
            x2,
            x3,
            p01,
            p02,
            p03,
            p12,
            p13,
            p23,
        ),
{
    lemma_distr3(x0, y1 * p23, y2 * p13, y3 * p12);
    lemma_distr3(x1, y0 * p23, y2 * p03, y3 * p02);
    lemma_distr3(x2, y0 * p13, y1 * p03, y3 * p01);
    lemma_distr3(x3, y0 * p12, y1 * p02, y2 * p01);
    lemma_distr3(y0, x1 * p23, x2 * p13, x3 * p12);
    lemma_distr3(y1, x0 * p23, x2 * p03, x3 * p02);
    lemma_distr3(y2, x0 * p13, x1 * p03, x3 * p01);
    lemma_distr3(y3, x0 * p12, x1 * p02, x2 * p01);
    lemma_triple_comm(x0, y1, p23);
    lemma_triple_comm(x0, y2, p13);
    lemma_triple_comm(x0, y3, p12);
    lemma_triple_comm(x1, y0, p23);
    lemma_triple_comm(x1, y2, p03);
    lemma_triple_comm(x1, y3, p02);
    lemma_triple_comm(x2, y0, p13);
    lemma_triple_comm(x2, y1, p03);
    lemma_triple_comm(x2, y3, p01);
    lemma_triple_comm(x3, y0, p12);
    lemma_triple_comm(x3, y1, p02);
    lemma_triple_comm(x3, y2, p01);
}

/// Cofactor expansion of a 3x3 determinant along its second row.
proof fn lemma_idet3_second_row(
    e00: int,
    e01: int,
    e02: int,
    e10: int,
    e11: int,
    e12: int,
    e20: int,
    e21: int,
    e22: int,
)
    ensures
        idet3(e00, e01, e02, e10, e11, e12, e20, e21, e22) == -(e10 * idet2(e01, e02, e21, e22))
            + e11 * idet2(e00, e02, e20, e22) - e12 * idet2(e00, e01, e20, e21),
{
    lemma_distr2(e00, e11 * e22, e12 * e21);
    lemma_distr2(e01, e10 * e22, e12 * e20);
    lemma_distr2(e02, e10 * e21, e11 * e20);
    lemma_distr2(e10, e01 * e22, e02 * e21);
    lemma_distr2(e11, e00 * e22, e02 * e20);
    lemma_distr2(e12, e00 * e21, e01 * e20);
    lemma_triple_comm(e00, e11, e22);
    lemma_triple_comm(e00, e12, e21);
    lemma_triple_comm(e01, e10, e22);
    lemma_triple_comm(e01, e12, e20);
    lemma_triple_comm(e02, e10, e21);
    lemma_triple_comm(e02, e11, e20);
}

/// Cofactor expansion of a 3x3 determinant along its third row.
proof fn lemma_idet3_third_row(
    e00: int,
    e01: int,
    e02: int,
    e10: int,
    e11: int,
    e12: int,
    e20: int,
    e21: int,
    e22: int,
)
    ensures
        idet3(e00, e01, e02, e10, e11, e12, e20, e21, e22) == e20 * idet2(e01, e02, e11, e12) - e21
            * idet2(e00, e02, e10, e12) + e22 * idet2(e00, e01, e10, e11),
{
    lemma_distr2(e00, e11 * e22, e12 * e21);
    lemma_distr2(e01, e10 * e22, e12 * e20);
    lemma_distr2(e02, e10 * e21, e11 * e20);
    lemma_distr2(e20, e01 * e12, e02 * e11);
    lemma_distr2(e21, e00 * e12, e02 * e10);
    lemma_distr2(e22, e00 * e11, e01 * e10);
    lemma_triple_comm3(e00, e11, e22);
    lemma_triple_comm3(e00, e12, e21);
    lemma_triple_comm3(e01, e10, e22);
    lemma_triple_comm3(e01, e12, e20);
    lemma_triple_comm3(e02, e10, e21);
    lemma_triple_comm3(e02, e11, e20);
}

/// Laplace's adjugate identity for the exact integer entries: a row of
/// the matrix dotted against the integer cofactors of row `j` gives the
/// integer determinant when the rows agree, and cancels to zero when
/// they differ (a determinant with two equal rows).
proof fn lemma_adjugate(m: Matrix4x4, i: int, j: int)
    requires
        0 <= i < 4,
        0 <= j < 4,
    ensures
        m.iw(i, 0) * m.icof(j, 0) + m.iw(i, 1) * m.icof(j, 1) + m.iw(i, 2) * m.icof(j, 2) + m.iw(
            i,
            3,
        ) * m.icof(j, 3) == if i == j {
            m.idet()
        } else {
            0
        },
{
    if i == 0 && j == 0 {
        let q0: int = m.iminor(0, 0);
        let q1: int = m.iminor(0, 1);
        let q2: int = m.iminor(0, 2);
        let q3: int = m.iminor(0, 3);
        vstd::arithmetic::mul::lemma_mul_unary_negation(m.iw(0, 0), q0);
        vstd::arithmetic::mul::lemma_mul_unary_negation(m.iw(0, 1), q1);
        vstd::arithmetic::mul::lemma_mul_unary_negation(m.iw(0, 2), q2);
        vstd::arithmetic::mul::lemma_mul_unary_negation(m.iw(0, 3), q3);
        assert(m.iw(0, 0) * m.icof(0, 0) + m.iw(0, 1) * m.icof(0, 1) + m.iw(0, 2) * m.icof(0, 2) + m.iw(0, 3) * m.icof(0, 3) == m.idet());
    } else if i == 1 && j == 0 {
        let p01: int = idet2(m.iw(2, 0), m.iw(2, 1), m.iw(3, 0), m.iw(3, 1));
        let p02: int = idet2(m.iw(2, 0), m.iw(2, 2), m.iw(3, 0), m.iw(3, 2));
        let p03: int = idet2(m.iw(2, 0), m.iw(2, 3), m.iw(3, 0), m.iw(3, 3));
        let p12: int = idet2(m.iw(2, 1), m.iw(2, 2), m.iw(3, 1), m.iw(3, 2));
        let p13: int = idet2(m.iw(2, 1), m.iw(2, 3), m.iw(3, 1), m.iw(3, 3));
        let p23: int = idet2(m.iw(2, 2), m.iw(2, 3), m.iw(3, 2), m.iw(3, 3));
        let c0: int = m.iw(1, 1) * p23 - m.iw(1, 2) * p13 + m.iw(1, 3) * p12;
        let c1: int = m.iw(1, 0) * p23 - m.iw(1, 2) * p03 + m.iw(1, 3) * p02;
        let c2: int = m.iw(1, 0) * p13 - m.iw(1, 1) * p03 + m.iw(1, 3) * p01;
        let c3: int = m.iw(1, 0) * p12 - m.iw(1, 1) * p02 + m.iw(1, 2) * p01;
        assert(m.iminor(0, 0) == c0);
        assert(m.iminor(0, 1) == c1);
        assert(m.iminor(0, 2) == c2);
        assert(m.iminor(0, 3) == c3);
        lemma_bil_alternating(m.iw(1, 0), m.iw(1, 1), m.iw(1, 2), m.iw(1, 3), p01, p02, p03, p12, p13, p23);
        vstd::arithmetic::mul::lemma_mul_unary_negation(m.iw(1, 0), c0);
        vstd::arithmetic::mul::lemma_mul_unary_negation(m.iw(1, 1), c1);
        vstd::arithmetic::mul::lemma_mul_unary_negation(m.iw(1, 2), c2);
        vstd::arithmetic::mul::lemma_mul_unary_negation(m.iw(1, 3), c3);
        assert(m.iw(1, 0) * m.icof(0, 0) + m.iw(1, 1) * m.icof(0, 1) + m.iw(1, 2) * m.icof(0, 2) + m.iw(1, 3) * m.icof(0, 3) == 0);
    } else if i == 2 && j == 0 {
        let p01: int = idet2(m.iw(1, 0), m.iw(1, 1), m.iw(3, 0), m.iw(3, 1));
        let p02: int = idet2(m.iw(1, 0), m.iw(1, 2), m.iw(3, 0), m.iw(3, 2));
        let p03: int = idet2(m.iw(1, 0), m.iw(1, 3), m.iw(3, 0), m.iw(3, 3));
        let p12: int = idet2(m.iw(1, 1), m.iw(1, 2), m.iw(3, 1), m.iw(3, 2));
        let p13: int = idet2(m.iw(1, 1), m.iw(1, 3), m.iw(3, 1), m.iw(3, 3));
        let p23: int = idet2(m.iw(1, 2), m.iw(1, 3), m.iw(3, 2), m.iw(3, 3));
        let c0: int = m.iw(2, 1) * p23 - m.iw(2, 2) * p13 + m.iw(2, 3) * p12;
        let c1: int = m.iw(2, 0) * p23 - m.iw(2, 2) * p03 + m.iw(2, 3) * p02;
        let c2: int = m.iw(2, 0) * p13 - m.iw(2, 1) * p03 + m.iw(2, 3) * p01;
        let c3: int = m.iw(2, 0) * p12 - m.iw(2, 1) * p02 + m.iw(2, 2) * p01;
        lemma_idet3_second_row(m.iw(1, 1), m.iw(1, 2), m.iw(1, 3), m.iw(2, 1), m.iw(2, 2), m.iw(2, 3), m.iw(3, 1), m.iw(3, 2), m.iw(3, 3));
        lemma_idet3_second_row(m.iw(1, 0), m.iw(1, 2), m.iw(1, 3), m.iw(2, 0), m.iw(2, 2), m.iw(2, 3), m.iw(3, 0), m.iw(3, 2), m.iw(3, 3));
        lemma_idet3_second_row(m.iw(1, 0), m.iw(1, 1), m.iw(1, 3), m.iw(2, 0), m.iw(2, 1), m.iw(2, 3), m.iw(3, 0), m.iw(3, 1), m.iw(3, 3));
        lemma_idet3_second_row(m.iw(1, 0), m.iw(1, 1), m.iw(1, 2), m.iw(2, 0), m.iw(2, 1), m.iw(2, 2), m.iw(3, 0), m.iw(3, 1), m.iw(3, 2));
        assert(m.iminor(0, 0) == -(c0));
        assert(m.iminor(0, 1) == -(c1));
        assert(m.iminor(0, 2) == -(c2));
        assert(m.iminor(0, 3) == -(c3));
        lemma_bil_alternating(m.iw(2, 0), m.iw(2, 1), m.iw(2, 2), m.iw(2, 3), p01, p02, p03, p12, p13, p23);
        vstd::arithmetic::mul::lemma_mul_unary_negation(m.iw(2, 0), c0);
        vstd::arithmetic::mul::lemma_mul_unary_negation(m.iw(2, 1), c1);
        vstd::arithmetic::mul::lemma_mul_unary_negation(m.iw(2, 2), c2);
        vstd::arithmetic::mul::lemma_mul_unary_negation(m.iw(2, 3), c3);
        assert(m.iw(2, 0) * m.icof(0, 0) + m.iw(2, 1) * m.icof(0, 1) + m.iw(2, 2) * m.icof(0, 2) + m.iw(2, 3) * m.icof(0, 3) == 0);
    } else if i == 3 && j == 0 {
        let p01: int = idet2(m.iw(1, 0), m.iw(1, 1), m.iw(2, 0), m.iw(2, 1));
        let p02: int = idet2(m.iw(1, 0), m.iw(1, 2), m.iw(2, 0), m.iw(2, 2));
        let p03: int = idet2(m.iw(1, 0), m.iw(1, 3), m.iw(2, 0), m.iw(2, 3));
        let p12: int = idet2(m.iw(1, 1), m.iw(1, 2), m.iw(2, 1), m.iw(2, 2));
        let p13: int = idet2(m.iw(1, 1), m.iw(1, 3), m.iw(2, 1), m.iw(2, 3));
        let p23: int = idet2(m.iw(1, 2), m.iw(1, 3), m.iw(2, 2), m.iw(2, 3));
        let c0: int = m.iw(3, 1) * p23 - m.iw(3, 2) * p13 + m.iw(3, 3) * p12;
        let c1: int = m.iw(3, 0) * p23 - m.iw(3, 2) * p03 + m.iw(3, 3) * p02;
        let c2: int = m.iw(3, 0) * p13 - m.iw(3, 1) * p03 + m.iw(3, 3) * p01;
        let c3: int = m.iw(3, 0) * p12 - m.iw(3, 1) * p02 + m.iw(3, 2) * p01;
        lemma_idet3_third_row(m.iw(1, 1), m.iw(1, 2), m.iw(1, 3), m.iw(2, 1), m.iw(2, 2), m.iw(2, 3), m.iw(3, 1), m.iw(3, 2), m.iw(3, 3));
        lemma_idet3_third_row(m.iw(1, 0), m.iw(1, 2), m.iw(1, 3), m.iw(2, 0), m.iw(2, 2), m.iw(2, 3), m.iw(3, 0), m.iw(3, 2), m.iw(3, 3));
        lemma_idet3_third_row(m.iw(1, 0), m.iw(1, 1), m.iw(1, 3), m.iw(2, 0), m.iw(2, 1), m.iw(2, 3), m.iw(3, 0), m.iw(3, 1), m.iw(3, 3));
        lemma_idet3_third_row(m.iw(1, 0), m.iw(1, 1), m.iw(1, 2), m.iw(2, 0), m.iw(2, 1), m.iw(2, 2), m.iw(3, 0), m.iw(3, 1), m.iw(3, 2));
        assert(m.iminor(0, 0) == c0);
        assert(m.iminor(0, 1) == c1);
        assert(m.iminor(0, 2) == c2);
        assert(m.iminor(0, 3) == c3);
        lemma_bil_alternating(m.iw(3, 0), m.iw(3, 1), m.iw(3, 2), m.iw(3, 3), p01, p02, p03, p12, p13, p23);
        vstd::arithmetic::mul::lemma_mul_unary_negation(m.iw(3, 0), c0);
        vstd::arithmetic::mul::lemma_mul_unary_negation(m.iw(3, 1), c1);
        vstd::arithmetic::mul::lemma_mul_unary_negation(m.iw(3, 2), c2);
        vstd::arithmetic::mul::lemma_mul_unary_negation(m.iw(3, 3), c3);
        assert(m.iw(3, 0) * m.icof(0, 0) + m.iw(3, 1) * m.icof(0, 1) + m.iw(3, 2) * m.icof(0, 2) + m.iw(3, 3) * m.icof(0, 3) == 0);
    } else if i == 0 && j == 1 {
        let p01: int = idet2(m.iw(2, 0), m.iw(2, 1), m.iw(3, 0), m.iw(3, 1));
        let p02: int = idet2(m.iw(2, 0), m.iw(2, 2), m.iw(3, 0), m.iw(3, 2));
        let p03: int = idet2(m.iw(2, 0), m.iw(2, 3), m.iw(3, 0), m.iw(3, 3));
        let p12: int = idet2(m.iw(2, 1), m.iw(2, 2), m.iw(3, 1), m.iw(3, 2));
        let p13: int = idet2(m.iw(2, 1), m.iw(2, 3), m.iw(3, 1), m.iw(3, 3));
        let p23: int = idet2(m.iw(2, 2), m.iw(2, 3), m.iw(3, 2), m.iw(3, 3));
        let c0: int = m.iw(0, 1) * p23 - m.iw(0, 2) * p13 + m.iw(0, 3) * p12;
        let c1: int = m.iw(0, 0) * p23 - m.iw(0, 2) * p03 + m.iw(0, 3) * p02;
        let c2: int = m.iw(0, 0) * p13 - m.iw(0, 1) * p03 + m.iw(0, 3) * p01;
        let c3: int = m.iw(0, 0) * p12 - m.iw(0, 1) * p02 + m.iw(0, 2) * p01;
        assert(m.iminor(1, 0) == c0);
        assert(m.iminor(1, 1) == c1);
        assert(m.iminor(1, 2) == c2);
        assert(m.iminor(1, 3) == c3);
        lemma_bil_alternating(m.iw(0, 0), m.iw(0, 1), m.iw(0, 2), m.iw(0, 3), p01, p02, p03, p12, p13, p23);
        vstd::arithmetic::mul::lemma_mul_unary_negation(m.iw(0, 0), c0);
        vstd::arithmetic::mul::lemma_mul_unary_negation(m.iw(0, 1), c1);
        vstd::arithmetic::mul::lemma_mul_unary_negation(m.iw(0, 2), c2);
        vstd::arithmetic::mul::lemma_mul_unary_negation(m.iw(0, 3), c3);
        assert(m.iw(0, 0) * m.icof(1, 0) + m.iw(0, 1) * m.icof(1, 1) + m.iw(0, 2) * m.icof(1, 2) + m.iw(0, 3) * m.icof(1, 3) == 0);
    } else if i == 1 && j == 1 {
        let p01: int = idet2(m.iw(2, 0), m.iw(2, 1), m.iw(3, 0), m.iw(3, 1));
        let p02: int = idet2(m.iw(2, 0), m.iw(2, 2), m.iw(3, 0), m.iw(3, 2));
        let p03: int = idet2(m.iw(2, 0), m.iw(2, 3), m.iw(3, 0), m.iw(3, 3));
        let p12: int = idet2(m.iw(2, 1), m.iw(2, 2), m.iw(3, 1), m.iw(3, 2));
        let p13: int = idet2(m.iw(2, 1), m.iw(2, 3), m.iw(3, 1), m.iw(3, 3));
        let p23: int = idet2(m.iw(2, 2), m.iw(2, 3), m.iw(3, 2), m.iw(3, 3));
        let c0: int = m.iw(0, 1) * p23 - m.iw(0, 2) * p13 + m.iw(0, 3) * p12;
        let c1: int = m.iw(0, 0) * p23 - m.iw(0, 2) * p03 + m.iw(0, 3) * p02;
        let c2: int = m.iw(0, 0) * p13 - m.iw(0, 1) * p03 + m.iw(0, 3) * p01;
        let c3: int = m.iw(0, 0) * p12 - m.iw(0, 1) * p02 + m.iw(0, 2) * p01;
        let d0: int = m.iw(1, 1) * p23 - m.iw(1, 2) * p13 + m.iw(1, 3) * p12;
        let d1: int = m.iw(1, 0) * p23 - m.iw(1, 2) * p03 + m.iw(1, 3) * p02;
        let d2: int = m.iw(1, 0) * p13 - m.iw(1, 1) * p03 + m.iw(1, 3) * p01;
        let d3: int = m.iw(1, 0) * p12 - m.iw(1, 1) * p02 + m.iw(1, 2) * p01;
        assert(m.iminor(1, 0) == c0);
        assert(m.iminor(1, 1) == c1);
        assert(m.iminor(1, 2) == c2);
        assert(m.iminor(1, 3) == c3);
        assert(m.iminor(0, 0) == d0);
        assert(m.iminor(0, 1) == d1);
        assert(m.iminor(0, 2) == d2);
        assert(m.iminor(0, 3) == d3);
        lemma_bil_swap(m.iw(1, 0), m.iw(1, 1), m.iw(1, 2), m.iw(1, 3), m.iw(0, 0), m.iw(0, 1), m.iw(0, 2), m.iw(0, 3), p01, p02, p03, p12, p13, p23);
        vstd::arithmetic::mul::lemma_mul_unary_negation(m.iw(1, 0), c0);
        vstd::arithmetic::mul::lemma_mul_unary_negation(m.iw(1, 1), c1);
        vstd::arithmetic::mul::lemma_mul_unary_negation(m.iw(1, 2), c2);
        vstd::arithmetic::mul::lemma_mul_unary_negation(m.iw(1, 3), c3);
        vstd::arithmetic::mul::lemma_mul_unary_negation(m.iw(0, 0), d0);
        vstd::arithmetic::mul::lemma_mul_unary_negation(m.iw(0, 1), d1);
        vstd::arithmetic::mul::lemma_mul_unary_negation(m.iw(0, 2), d2);
        vstd::arithmetic::mul::lemma_mul_unary_negation(m.iw(0, 3), d3);
        assert(m.iw(1, 0) * m.icof(1, 0) + m.iw(1, 1) * m.icof(1, 1) + m.iw(1, 2) * m.icof(1, 2) + m.iw(1, 3) * m.icof(1, 3) == m.idet());
    } else if i == 2 && j == 1 {
        let p01: int = idet2(m.iw(0, 0), m.iw(0, 1), m.iw(3, 0), m.iw(3, 1));
        let p02: int = idet2(m.iw(0, 0), m.iw(0, 2), m.iw(3, 0), m.iw(3, 2));
        let p03: int = idet2(m.iw(0, 0), m.iw(0, 3), m.iw(3, 0), m.iw(3, 3));
        let p12: int = idet2(m.iw(0, 1), m.iw(0, 2), m.iw(3, 1), m.iw(3, 2));
        let p13: int = idet2(m.iw(0, 1), m.iw(0, 3), m.iw(3, 1), m.iw(3, 3));
        let p23: int = idet2(m.iw(0, 2), m.iw(0, 3), m.iw(3, 2), m.iw(3, 3));
        let c0: int = m.iw(2, 1) * p23 - m.iw(2, 2) * p13 + m.iw(2, 3) * p12;
        let c1: int = m.iw(2, 0) * p23 - m.iw(2, 2) * p03 + m.iw(2, 3) * p02;
        let c2: int = m.iw(2, 0) * p13 - m.iw(2, 1) * p03 + m.iw(2, 3) * p01;
        let c3: int = m.iw(2, 0) * p12 - m.iw(2, 1) * p02 + m.iw(2, 2) * p01;
        lemma_idet3_second_row(m.iw(0, 1), m.iw(0, 2), m.iw(0, 3), m.iw(2, 1), m.iw(2, 2), m.iw(2, 3), m.iw(3, 1), m.iw(3, 2), m.iw(3, 3));
        lemma_idet3_second_row(m.iw(0, 0), m.iw(0, 2), m.iw(0, 3), m.iw(2, 0), m.iw(2, 2), m.iw(2, 3), m.iw(3, 0), m.iw(3, 2), m.iw(3, 3));
        lemma_idet3_second_row(m.iw(0, 0), m.iw(0, 1), m.iw(0, 3), m.iw(2, 0), m.iw(2, 1), m.iw(2, 3), m.iw(3, 0), m.iw(3, 1), m.iw(3, 3));
        lemma_idet3_second_row(m.iw(0, 0), m.iw(0, 1), m.iw(0, 2), m.iw(2, 0), m.iw(2, 1), m.iw(2, 2), m.iw(3, 0), m.iw(3, 1), m.iw(3, 2));
        assert(m.iminor(1, 0) == -(c0));
        assert(m.iminor(1, 1) == -(c1));
        assert(m.iminor(1, 2) == -(c2));
        assert(m.iminor(1, 3) == -(c3));
        lemma_bil_alternating(m.iw(2, 0), m.iw(2, 1), m.iw(2, 2), m.iw(2, 3), p01, p02, p03, p12, p13, p23);
        vstd::arithmetic::mul::lemma_mul_unary_negation(m.iw(2, 0), c0);
        vstd::arithmetic::mul::lemma_mul_unary_negation(m.iw(2, 1), c1);
        vstd::arithmetic::mul::lemma_mul_unary_negation(m.iw(2, 2), c2);
        vstd::arithmetic::mul::lemma_mul_unary_negation(m.iw(2, 3), c3);
        assert(m.iw(2, 0) * m.icof(1, 0) + m.iw(2, 1) * m.icof(1, 1) + m.iw(2, 2) * m.icof(1, 2) + m.iw(2, 3) * m.icof(1, 3) == 0);
    } else if i == 3 && j == 1 {
        let p01: int = idet2(m.iw(0, 0), m.iw(0, 1), m.iw(2, 0), m.iw(2, 1));
        let p02: int = idet2(m.iw(0, 0), m.iw(0, 2), m.iw(2, 0), m.iw(2, 2));
        let p03: int = idet2(m.iw(0, 0), m.iw(0, 3), m.iw(2, 0), m.iw(2, 3));
        let p12: int = idet2(m.iw(0, 1), m.iw(0, 2), m.iw(2, 1), m.iw(2, 2));
        let p13: int = idet2(m.iw(0, 1), m.iw(0, 3), m.iw(2, 1), m.iw(2, 3));
        let p23: int = idet2(m.iw(0, 2), m.iw(0, 3), m.iw(2, 2), m.iw(2, 3));
        let c0: int = m.iw(3, 1) * p23 - m.iw(3, 2) * p13 + m.iw(3, 3) * p12;
        let c1: int = m.iw(3, 0) * p23 - m.iw(3, 2) * p03 + m.iw(3, 3) * p02;
        let c2: int = m.iw(3, 0) * p13 - m.iw(3, 1) * p03 + m.iw(3, 3) * p01;
        let c3: int = m.iw(3, 0) * p12 - m.iw(3, 1) * p02 + m.iw(3, 2) * p01;
        lemma_idet3_third_row(m.iw(0, 1), m.iw(0, 2), m.iw(0, 3), m.iw(2, 1), m.iw(2, 2), m.iw(2, 3), m.iw(3, 1), m.iw(3, 2), m.iw(3, 3));
        lemma_idet3_third_row(m.iw(0, 0), m.iw(0, 2), m.iw(0, 3), m.iw(2, 0), m.iw(2, 2), m.iw(2, 3), m.iw(3, 0), m.iw(3, 2), m.iw(3, 3));
        lemma_idet3_third_row(m.iw(0, 0), m.iw(0, 1), m.iw(0, 3), m.iw(2, 0), m.iw(2, 1), m.iw(2, 3), m.iw(3, 0), m.iw(3, 1), m.iw(3, 3));
        lemma_idet3_third_row(m.iw(0, 0), m.iw(0, 1), m.iw(0, 2), m.iw(2, 0), m.iw(2, 1), m.iw(2, 2), m.iw(3, 0), m.iw(3, 1), m.iw(3, 2));
        assert(m.iminor(1, 0) == c0);
        assert(m.iminor(1, 1) == c1);
        assert(m.iminor(1, 2) == c2);
        assert(m.iminor(1, 3) == c3);
        lemma_bil_alternating(m.iw(3, 0), m.iw(3, 1), m.iw(3, 2), m.iw(3, 3), p01, p02, p03, p12, p13, p23);
        vstd::arithmetic::mul::lemma_mul_unary_negation(m.iw(3, 0), c0);
        vstd::arithmetic::mul::lemma_mul_unary_negation(m.iw(3, 1), c1);
        vstd::arithmetic::mul::lemma_mul_unary_negation(m.iw(3, 2), c2);
        vstd::arithmetic::mul::lemma_mul_unary_negation(m.iw(3, 3), c3);
        assert(m.iw(3, 0) * m.icof(1, 0) + m.iw(3, 1) * m.icof(1, 1) + m.iw(3, 2) * m.icof(1, 2) + m.iw(3, 3) * m.icof(1, 3) == 0);
    } else if i == 0 && j == 2 {
        let p01: int = idet2(m.iw(1, 0), m.iw(1, 1), m.iw(3, 0), m.iw(3, 1));
        let p02: int = idet2(m.iw(1, 0), m.iw(1, 2), m.iw(3, 0), m.iw(3, 2));
        let p03: int = idet2(m.iw(1, 0), m.iw(1, 3), m.iw(3, 0), m.iw(3, 3));
        let p12: int = idet2(m.iw(1, 1), m.iw(1, 2), m.iw(3, 1), m.iw(3, 2));
        let p13: int = idet2(m.iw(1, 1), m.iw(1, 3), m.iw(3, 1), m.iw(3, 3));
        let p23: int = idet2(m.iw(1, 2), m.iw(1, 3), m.iw(3, 2), m.iw(3, 3));
        let c0: int = m.iw(0, 1) * p23 - m.iw(0, 2) * p13 + m.iw(0, 3) * p12;
        let c1: int = m.iw(0, 0) * p23 - m.iw(0, 2) * p03 + m.iw(0, 3) * p02;
        let c2: int = m.iw(0, 0) * p13 - m.iw(0, 1) * p03 + m.iw(0, 3) * p01;
        let c3: int = m.iw(0, 0) * p12 - m.iw(0, 1) * p02 + m.iw(0, 2) * p01;
        assert(m.iminor(2, 0) == c0);
        assert(m.iminor(2, 1) == c1);
        assert(m.iminor(2, 2) == c2);
        assert(m.iminor(2, 3) == c3);
        lemma_bil_alternating(m.iw(0, 0), m.iw(0, 1), m.iw(0, 2), m.iw(0, 3), p01, p02, p03, p12, p13, p23);
        vstd::arithmetic::mul::lemma_mul_unary_negation(m.iw(0, 0), c0);
        vstd::arithmetic::mul::lemma_mul_unary_negation(m.iw(0, 1), c1);
        vstd::arithmetic::mul::lemma_mul_unary_negation(m.iw(0, 2), c2);
        vstd::arithmetic::mul::lemma_mul_unary_negation(m.iw(0, 3), c3);
        assert(m.iw(0, 0) * m.icof(2, 0) + m.iw(0, 1) * m.icof(2, 1) + m.iw(0, 2) * m.icof(2, 2) + m.iw(0, 3) * m.icof(2, 3) == 0);
    } else if i == 1 && j == 2 {
        let p01: int = idet2(m.iw(0, 0), m.iw(0, 1), m.iw(3, 0), m.iw(3, 1));
        let p02: int = idet2(m.iw(0, 0), m.iw(0, 2), m.iw(3, 0), m.iw(3, 2));
        let p03: int = idet2(m.iw(0, 0), m.iw(0, 3), m.iw(3, 0), m.iw(3, 3));
        let p12: int = idet2(m.iw(0, 1), m.iw(0, 2), m.iw(3, 1), m.iw(3, 2));
        let p13: int = idet2(m.iw(0, 1), m.iw(0, 3), m.iw(3, 1), m.iw(3, 3));
        let p23: int = idet2(m.iw(0, 2), m.iw(0, 3), m.iw(3, 2), m.iw(3, 3));
        let c0: int = m.iw(1, 1) * p23 - m.iw(1, 2) * p13 + m.iw(1, 3) * p12;
        let c1: int = m.iw(1, 0) * p23 - m.iw(1, 2) * p03 + m.iw(1, 3) * p02;
        let c2: int = m.iw(1, 0) * p13 - m.iw(1, 1) * p03 + m.iw(1, 3) * p01;
        let c3: int = m.iw(1, 0) * p12 - m.iw(1, 1) * p02 + m.iw(1, 2) * p01;
        lemma_idet3_second_row(m.iw(0, 1), m.iw(0, 2), m.iw(0, 3), m.iw(1, 1), m.iw(1, 2), m.iw(1, 3), m.iw(3, 1), m.iw(3, 2), m.iw(3, 3));
        lemma_idet3_second_row(m.iw(0, 0), m.iw(0, 2), m.iw(0, 3), m.iw(1, 0), m.iw(1, 2), m.iw(1, 3), m.iw(3, 0), m.iw(3, 2), m.iw(3, 3));
        lemma_idet3_second_row(m.iw(0, 0), m.iw(0, 1), m.iw(0, 3), m.iw(1, 0), m.iw(1, 1), m.iw(1, 3), m.iw(3, 0), m.iw(3, 1), m.iw(3, 3));
        lemma_idet3_second_row(m.iw(0, 0), m.iw(0, 1), m.iw(0, 2), m.iw(1, 0), m.iw(1, 1), m.iw(1, 2), m.iw(3, 0), m.iw(3, 1), m.iw(3, 2));
        assert(m.iminor(2, 0) == -(c0));
        assert(m.iminor(2, 1) == -(c1));
        assert(m.iminor(2, 2) == -(c2));
        assert(m.iminor(2, 3) == -(c3));
        lemma_bil_alternating(m.iw(1, 0), m.iw(1, 1), m.iw(1, 2), m.iw(1, 3), p01, p02, p03, p12, p13, p23);
        vstd::arithmetic::mul::lemma_mul_unary_negation(m.iw(1, 0), c0);
        vstd::arithmetic::mul::lemma_mul_unary_negation(m.iw(1, 1), c1);
        vstd::arithmetic::mul::lemma_mul_unary_negation(m.iw(1, 2), c2);
        vstd::arithmetic::mul::lemma_mul_unary_negation(m.iw(1, 3), c3);
        assert(m.iw(1, 0) * m.icof(2, 0) + m.iw(1, 1) * m.icof(2, 1) + m.iw(1, 2) * m.icof(2, 2) + m.iw(1, 3) * m.icof(2, 3) == 0);
    } else if i == 2 && j == 2 {
        let p01: int = idet2(m.iw(1, 0), m.iw(1, 1), m.iw(3, 0), m.iw(3, 1));
        let p02: int = idet2(m.iw(1, 0), m.iw(1, 2), m.iw(3, 0), m.iw(3, 2));
        let p03: int = idet2(m.iw(1, 0), m.iw(1, 3), m.iw(3, 0), m.iw(3, 3));
        let p12: int = idet2(m.iw(1, 1), m.iw(1, 2), m.iw(3, 1), m.iw(3, 2));
        let p13: int = idet2(m.iw(1, 1), m.iw(1, 3), m.iw(3, 1), m.iw(3, 3));
        let p23: int = idet2(m.iw(1, 2), m.iw(1, 3), m.iw(3, 2), m.iw(3, 3));
        let c0: int = m.iw(0, 1) * p23 - m.iw(0, 2) * p13 + m.iw(0, 3) * p12;
        let c1: int = m.iw(0, 0) * p23 - m.iw(0, 2) * p03 + m.iw(0, 3) * p02;
        let c2: int = m.iw(0, 0) * p13 - m.iw(0, 1) * p03 + m.iw(0, 3) * p01;
        let c3: int = m.iw(0, 0) * p12 - m.iw(0, 1) * p02 + m.iw(0, 2) * p01;
        let d0: int = m.iw(2, 1) * p23 - m.iw(2, 2) * p13 + m.iw(2, 3) * p12;
        let d1: int = m.iw(2, 0) * p23 - m.iw(2, 2) * p03 + m.iw(2, 3) * p02;
        let d2: int = m.iw(2, 0) * p13 - m.iw(2, 1) * p03 + m.iw(2, 3) * p01;
        let d3: int = m.iw(2, 0) * p12 - m.iw(2, 1) * p02 + m.iw(2, 2) * p01;
        assert(m.iminor(2, 0) == c0);
        assert(m.iminor(2, 1) == c1);
        assert(m.iminor(2, 2) == c2);
        assert(m.iminor(2, 3) == c3);
        lemma_idet3_second_row(m.iw(1, 1), m.iw(1, 2), m.iw(1, 3), m.iw(2, 1), m.iw(2, 2), m.iw(2, 3), m.iw(3, 1), m.iw(3, 2), m.iw(3, 3));
        lemma_idet3_second_row(m.iw(1, 0), m.iw(1, 2), m.iw(1, 3), m.iw(2, 0), m.iw(2, 2), m.iw(2, 3), m.iw(3, 0), m.iw(3, 2), m.iw(3, 3));
        lemma_idet3_second_row(m.iw(1, 0), m.iw(1, 1), m.iw(1, 3), m.iw(2, 0), m.iw(2, 1), m.iw(2, 3), m.iw(3, 0), m.iw(3, 1), m.iw(3, 3));
        lemma_idet3_second_row(m.iw(1, 0), m.iw(1, 1), m.iw(1, 2), m.iw(2, 0), m.iw(2, 1), m.iw(2, 2), m.iw(3, 0), m.iw(3, 1), m.iw(3, 2));
        assert(m.iminor(0, 0) == -(d0));
        assert(m.iminor(0, 1) == -(d1));
        assert(m.iminor(0, 2) == -(d2));
        assert(m.iminor(0, 3) == -(d3));
        lemma_bil_swap(m.iw(2, 0), m.iw(2, 1), m.iw(2, 2), m.iw(2, 3), m.iw(0, 0), m.iw(0, 1), m.iw(0, 2), m.iw(0, 3), p01, p02, p03, p12, p13, p23);
        vstd::arithmetic::mul::lemma_mul_unary_negation(m.iw(2, 0), c0);
        vstd::arithmetic::mul::lemma_mul_unary_negation(m.iw(2, 1), c1);
        vstd::arithmetic::mul::lemma_mul_unary_negation(m.iw(2, 2), c2);
        vstd::arithmetic::mul::lemma_mul_unary_negation(m.iw(2, 3), c3);
        vstd::arithmetic::mul::lemma_mul_unary_negation(m.iw(0, 0), d0);
        vstd::arithmetic::mul::lemma_mul_unary_negation(m.iw(0, 1), d1);
        vstd::arithmetic::mul::lemma_mul_unary_negation(m.iw(0, 2), d2);
        vstd::arithmetic::mul::lemma_mul_unary_negation(m.iw(0, 3), d3);
        assert(m.iw(2, 0) * m.icof(2, 0) + m.iw(2, 1) * m.icof(2, 1) + m.iw(2, 2) * m.icof(2, 2) + m.iw(2, 3) * m.icof(2, 3) == m.idet());
    } else if i == 3 && j == 2 {
        let p01: int = idet2(m.iw(0, 0), m.iw(0, 1), m.iw(1, 0), m.iw(1, 1));
        let p02: int = idet2(m.iw(0, 0), m.iw(0, 2), m.iw(1, 0), m.iw(1, 2));
        let p03: int = idet2(m.iw(0, 0), m.iw(0, 3), m.iw(1, 0), m.iw(1, 3));
        let p12: int = idet2(m.iw(0, 1), m.iw(0, 2), m.iw(1, 1), m.iw(1, 2));
        let p13: int = idet2(m.iw(0, 1), m.iw(0, 3), m.iw(1, 1), m.iw(1, 3));
        let p23: int = idet2(m.iw(0, 2), m.iw(0, 3), m.iw(1, 2), m.iw(1, 3));
        let c0: int = m.iw(3, 1) * p23 - m.iw(3, 2) * p13 + m.iw(3, 3) * p12;
        let c1: int = m.iw(3, 0) * p23 - m.iw(3, 2) * p03 + m.iw(3, 3) * p02;
        let c2: int = m.iw(3, 0) * p13 - m.iw(3, 1) * p03 + m.iw(3, 3) * p01;
        let c3: int = m.iw(3, 0) * p12 - m.iw(3, 1) * p02 + m.iw(3, 2) * p01;
        lemma_idet3_third_row(m.iw(0, 1), m.iw(0, 2), m.iw(0, 3), m.iw(1, 1), m.iw(1, 2), m.iw(1, 3), m.iw(3, 1), m.iw(3, 2), m.iw(3, 3));
        lemma_idet3_third_row(m.iw(0, 0), m.iw(0, 2), m.iw(0, 3), m.iw(1, 0), m.iw(1, 2), m.iw(1, 3), m.iw(3, 0), m.iw(3, 2), m.iw(3, 3));
        lemma_idet3_third_row(m.iw(0, 0), m.iw(0, 1), m.iw(0, 3), m.iw(1, 0), m.iw(1, 1), m.iw(1, 3), m.iw(3, 0), m.iw(3, 1), m.iw(3, 3));
        lemma_idet3_third_row(m.iw(0, 0), m.iw(0, 1), m.iw(0, 2), m.iw(1, 0), m.iw(1, 1), m.iw(1, 2), m.iw(3, 0), m.iw(3, 1), m.iw(3, 2));
        assert(m.iminor(2, 0) == c0);
        assert(m.iminor(2, 1) == c1);
        assert(m.iminor(2, 2) == c2);
        assert(m.iminor(2, 3) == c3);
        lemma_bil_alternating(m.iw(3, 0), m.iw(3, 1), m.iw(3, 2), m.iw(3, 3), p01, p02, p03, p12, p13, p23);
        vstd::arithmetic::mul::lemma_mul_unary_negation(m.iw(3, 0), c0);
        vstd::arithmetic::mul::lemma_mul_unary_negation(m.iw(3, 1), c1);
        vstd::arithmetic::mul::lemma_mul_unary_negation(m.iw(3, 2), c2);
        vstd::arithmetic::mul::lemma_mul_unary_negation(m.iw(3, 3), c3);
        assert(m.iw(3, 0) * m.icof(2, 0) + m.iw(3, 1) * m.icof(2, 1) + m.iw(3, 2) * m.icof(2, 2) + m.iw(3, 3) * m.icof(2, 3) == 0);
    } else if i == 0 && j == 3 {
        let p01: int = idet2(m.iw(1, 0), m.iw(1, 1), m.iw(2, 0), m.iw(2, 1));
        let p02: int = idet2(m.iw(1, 0), m.iw(1, 2), m.iw(2, 0), m.iw(2, 2));
        let p03: int = idet2(m.iw(1, 0), m.iw(1, 3), m.iw(2, 0), m.iw(2, 3));
        let p12: int = idet2(m.iw(1, 1), m.iw(1, 2), m.iw(2, 1), m.iw(2, 2));
        let p13: int = idet2(m.iw(1, 1), m.iw(1, 3), m.iw(2, 1), m.iw(2, 3));
        let p23: int = idet2(m.iw(1, 2), m.iw(1, 3), m.iw(2, 2), m.iw(2, 3));
        let c0: int = m.iw(0, 1) * p23 - m.iw(0, 2) * p13 + m.iw(0, 3) * p12;
        let c1: int = m.iw(0, 0) * p23 - m.iw(0, 2) * p03 + m.iw(0, 3) * p02;
        let c2: int = m.iw(0, 0) * p13 - m.iw(0, 1) * p03 + m.iw(0, 3) * p01;
        let c3: int = m.iw(0, 0) * p12 - m.iw(0, 1) * p02 + m.iw(0, 2) * p01;
        assert(m.iminor(3, 0) == c0);
        assert(m.iminor(3, 1) == c1);
        assert(m.iminor(3, 2) == c2);
        assert(m.iminor(3, 3) == c3);
        lemma_bil_alternating(m.iw(0, 0), m.iw(0, 1), m.iw(0, 2), m.iw(0, 3), p01, p02, p03, p12, p13, p23);
        vstd::arithmetic::mul::lemma_mul_unary_negation(m.iw(0, 0), c0);
        vstd::arithmetic::mul::lemma_mul_unary_negation(m.iw(0, 1), c1);
        vstd::arithmetic::mul::lemma_mul_unary_negation(m.iw(0, 2), c2);
        vstd::arithmetic::mul::lemma_mul_unary_negation(m.iw(0, 3), c3);
        assert(m.iw(0, 0) * m.icof(3, 0) + m.iw(0, 1) * m.icof(3, 1) + m.iw(0, 2) * m.icof(3, 2) + m.iw(0, 3) * m.icof(3, 3) == 0);
    } else if i == 1 && j == 3 {
        let p01: int = idet2(m.iw(0, 0), m.iw(0, 1), m.iw(2, 0), m.iw(2, 1));
        let p02: int = idet2(m.iw(0, 0), m.iw(0, 2), m.iw(2, 0), m.iw(2, 2));
        let p03: int = idet2(m.iw(0, 0), m.iw(0, 3), m.iw(2, 0), m.iw(2, 3));
        let p12: int = idet2(m.iw(0, 1), m.iw(0, 2), m.iw(2, 1), m.iw(2, 2));
        let p13: int = idet2(m.iw(0, 1), m.iw(0, 3), m.iw(2, 1), m.iw(2, 3));
        let p23: int = idet2(m.iw(0, 2), m.iw(0, 3), m.iw(2, 2), m.iw(2, 3));
        let c0: int = m.iw(1, 1) * p23 - m.iw(1, 2) * p13 + m.iw(1, 3) * p12;
        let c1: int = m.iw(1, 0) * p23 - m.iw(1, 2) * p03 + m.iw(1, 3) * p02;
        let c2: int = m.iw(1, 0) * p13 - m.iw(1, 1) * p03 + m.iw(1, 3) * p01;
        let c3: int = m.iw(1, 0) * p12 - m.iw(1, 1) * p02 + m.iw(1, 2) * p01;
        lemma_idet3_second_row(m.iw(0, 1), m.iw(0, 2), m.iw(0, 3), m.iw(1, 1), m.iw(1, 2), m.iw(1, 3), m.iw(2, 1), m.iw(2, 2), m.iw(2, 3));
        lemma_idet3_second_row(m.iw(0, 0), m.iw(0, 2), m.iw(0, 3), m.iw(1, 0), m.iw(1, 2), m.iw(1, 3), m.iw(2, 0), m.iw(2, 2), m.iw(2, 3));
        lemma_idet3_second_row(m.iw(0, 0), m.iw(0, 1), m.iw(0, 3), m.iw(1, 0), m.iw(1, 1), m.iw(1, 3), m.iw(2, 0), m.iw(2, 1), m.iw(2, 3));
        lemma_idet3_second_row(m.iw(0, 0), m.iw(0, 1), m.iw(0, 2), m.iw(1, 0), m.iw(1, 1), m.iw(1, 2), m.iw(2, 0), m.iw(2, 1), m.iw(2, 2));
        assert(m.iminor(3, 0) == -(c0));
        assert(m.iminor(3, 1) == -(c1));
        assert(m.iminor(3, 2) == -(c2));
        assert(m.iminor(3, 3) == -(c3));
        lemma_bil_alternating(m.iw(1, 0), m.iw(1, 1), m.iw(1, 2), m.iw(1, 3), p01, p02, p03, p12, p13, p23);
        vstd::arithmetic::mul::lemma_mul_unary_negation(m.iw(1, 0), c0);
        vstd::arithmetic::mul::lemma_mul_unary_negation(m.iw(1, 1), c1);
        vstd::arithmetic::mul::lemma_mul_unary_negation(m.iw(1, 2), c2);
        vstd::arithmetic::mul::lemma_mul_unary_negation(m.iw(1, 3), c3);
        assert(m.iw(1, 0) * m.icof(3, 0) + m.iw(1, 1) * m.icof(3, 1) + m.iw(1, 2) * m.icof(3, 2) + m.iw(1, 3) * m.icof(3, 3) == 0);
    } else if i == 2 && j == 3 {
        let p01: int = idet2(m.iw(0, 0), m.iw(0, 1), m.iw(1, 0), m.iw(1, 1));
        let p02: int = idet2(m.iw(0, 0), m.iw(0, 2), m.iw(1, 0), m.iw(1, 2));
        let p03: int = idet2(m.iw(0, 0), m.iw(0, 3), m.iw(1, 0), m.iw(1, 3));
        let p12: int = idet2(m.iw(0, 1), m.iw(0, 2), m.iw(1, 1), m.iw(1, 2));
        let p13: int = idet2(m.iw(0, 1), m.iw(0, 3), m.iw(1, 1), m.iw(1, 3));
        let p23: int = idet2(m.iw(0, 2), m.iw(0, 3), m.iw(1, 2), m.iw(1, 3));
        let c0: int = m.iw(2, 1) * p23 - m.iw(2, 2) * p13 + m.iw(2, 3) * p12;
        let c1: int = m.iw(2, 0) * p23 - m.iw(2, 2) * p03 + m.iw(2, 3) * p02;
        let c2: int = m.iw(2, 0) * p13 - m.iw(2, 1) * p03 + m.iw(2, 3) * p01;
        let c3: int = m.iw(2, 0) * p12 - m.iw(2, 1) * p02 + m.iw(2, 2) * p01;
        lemma_idet3_third_row(m.iw(0, 1), m.iw(0, 2), m.iw(0, 3), m.iw(1, 1), m.iw(1, 2), m.iw(1, 3), m.iw(2, 1), m.iw(2, 2), m.iw(2, 3));
        lemma_idet3_third_row(m.iw(0, 0), m.iw(0, 2), m.iw(0, 3), m.iw(1, 0), m.iw(1, 2), m.iw(1, 3), m.iw(2, 0), m.iw(2, 2), m.iw(2, 3));
        lemma_idet3_third_row(m.iw(0, 0), m.iw(0, 1), m.iw(0, 3), m.iw(1, 0), m.iw(1, 1), m.iw(1, 3), m.iw(2, 0), m.iw(2, 1), m.iw(2, 3));
        lemma_idet3_third_row(m.iw(0, 0), m.iw(0, 1), m.iw(0, 2), m.iw(1, 0), m.iw(1, 1), m.iw(1, 2), m.iw(2, 0), m.iw(2, 1), m.iw(2, 2));
        assert(m.iminor(3, 0) == c0);
        assert(m.iminor(3, 1) == c1);
        assert(m.iminor(3, 2) == c2);
        assert(m.iminor(3, 3) == c3);
        lemma_bil_alternating(m.iw(2, 0), m.iw(2, 1), m.iw(2, 2), m.iw(2, 3), p01, p02, p03, p12, p13, p23);
        vstd::arithmetic::mul::lemma_mul_unary_negation(m.iw(2, 0), c0);
        vstd::arithmetic::mul::lemma_mul_unary_negation(m.iw(2, 1), c1);
        vstd::arithmetic::mul::lemma_mul_unary_negation(m.iw(2, 2), c2);
        vstd::arithmetic::mul::lemma_mul_unary_negation(m.iw(2, 3), c3);
        assert(m.iw(2, 0) * m.icof(3, 0) + m.iw(2, 1) * m.icof(3, 1) + m.iw(2, 2) * m.icof(3, 2) + m.iw(2, 3) * m.icof(3, 3) == 0);
    } else if i == 3 && j == 3 {
        let p01: int = idet2(m.iw(1, 0), m.iw(1, 1), m.iw(2, 0), m.iw(2, 1));
        let p02: int = idet2(m.iw(1, 0), m.iw(1, 2), m.iw(2, 0), m.iw(2, 2));
        let p03: int = idet2(m.iw(1, 0), m.iw(1, 3), m.iw(2, 0), m.iw(2, 3));
        let p12: int = idet2(m.iw(1, 1), m.iw(1, 2), m.iw(2, 1), m.iw(2, 2));
        let p13: int = idet2(m.iw(1, 1), m.iw(1, 3), m.iw(2, 1), m.iw(2, 3));
        let p23: int = idet2(m.iw(1, 2), m.iw(1, 3), m.iw(2, 2), m.iw(2, 3));
        let c0: int = m.iw(0, 1) * p23 - m.iw(0, 2) * p13 + m.iw(0, 3) * p12;
        let c1: int = m.iw(0, 0) * p23 - m.iw(0, 2) * p03 + m.iw(0, 3) * p02;
        let c2: int = m.iw(0, 0) * p13 - m.iw(0, 1) * p03 + m.iw(0, 3) * p01;
        let c3: int = m.iw(0, 0) * p12 - m.iw(0, 1) * p02 + m.iw(0, 2) * p01;
        let d0: int = m.iw(3, 1) * p23 - m.iw(3, 2) * p13 + m.iw(3, 3) * p12;
        let d1: int = m.iw(3, 0) * p23 - m.iw(3, 2) * p03 + m.iw(3, 3) * p02;
        let d2: int = m.iw(3, 0) * p13 - m.iw(3, 1) * p03 + m.iw(3, 3) * p01;
        let d3: int = m.iw(3, 0) * p12 - m.iw(3, 1) * p02 + m.iw(3, 2) * p01;
        assert(m.iminor(3, 0) == c0);
        assert(m.iminor(3, 1) == c1);
        assert(m.iminor(3, 2) == c2);
        assert(m.iminor(3, 3) == c3);
        lemma_idet3_third_row(m.iw(1, 1), m.iw(1, 2), m.iw(1, 3), m.iw(2, 1), m.iw(2, 2), m.iw(2, 3), m.iw(3, 1), m.iw(3, 2), m.iw(3, 3));
        lemma_idet3_third_row(m.iw(1, 0), m.iw(1, 2), m.iw(1, 3), m.iw(2, 0), m.iw(2, 2), m.iw(2, 3), m.iw(3, 0), m.iw(3, 2), m.iw(3, 3));
        lemma_idet3_third_row(m.iw(1, 0), m.iw(1, 1), m.iw(1, 3), m.iw(2, 0), m.iw(2, 1), m.iw(2, 3), m.iw(3, 0), m.iw(3, 1), m.iw(3, 3));
        lemma_idet3_third_row(m.iw(1, 0), m.iw(1, 1), m.iw(1, 2), m.iw(2, 0), m.iw(2, 1), m.iw(2, 2), m.iw(3, 0), m.iw(3, 1), m.iw(3, 2));
        assert(m.iminor(0, 0) == d0);
        assert(m.iminor(0, 1) == d1);
        assert(m.iminor(0, 2) == d2);
        assert(m.iminor(0, 3) == d3);
        lemma_bil_swap(m.iw(3, 0), m.iw(3, 1), m.iw(3, 2), m.iw(3, 3), m.iw(0, 0), m.iw(0, 1), m.iw(0, 2), m.iw(0, 3), p01, p02, p03, p12, p13, p23);
        vstd::arithmetic::mul::lemma_mul_unary_negation(m.iw(3, 0), c0);
        vstd::arithmetic::mul::lemma_mul_unary_negation(m.iw(3, 1), c1);
        vstd::arithmetic::mul::lemma_mul_unary_negation(m.iw(3, 2), c2);
        vstd::arithmetic::mul::lemma_mul_unary_negation(m.iw(3, 3), c3);
        vstd::arithmetic::mul::lemma_mul_unary_negation(m.iw(0, 0), d0);
        vstd::arithmetic::mul::lemma_mul_unary_negation(m.iw(0, 1), d1);
        vstd::arithmetic::mul::lemma_mul_unary_negation(m.iw(0, 2), d2);
        vstd::arithmetic::mul::lemma_mul_unary_negation(m.iw(0, 3), d3);
        assert(m.iw(3, 0) * m.icof(3, 0) + m.iw(3, 1) * m.icof(3, 1) + m.iw(3, 2) * m.icof(3, 2) + m.iw(3, 3) * m.icof(3, 3) == m.idet());
    }
}

/// Distributes one factor over a four-term sum.
proof fn lemma_distr_add4(x: int, a: int, b: int, c: int, d: int)
    ensures
        x * (a + b + c + d) == x * a + x * b + x * c + x * d,
{
    vstd::arithmetic::mul::lemma_mul_is_distributive_add(x, a + b + c, d);
    vstd::arithmetic::mul::lemma_mul_is_distributive_add(x, a + b, c);
    vstd::arithmetic::mul::lemma_mul_is_distributive_add(x, a, b);
}

/// One inverse entry times the integer determinant stays within half a
/// determinant of the scaled integer cofactor.
proof fn lemma_inv_entry_scaled_err(m: Matrix4x4, inv: Matrix4x4, j: int, k2: int)
    requires
        m.aligned(),
        0 <= j < 4,
        0 <= k2 < 4,
        m.det_spec() == SCALE as int * m.idet(),
        m.idet() != 0,
        inv.at(k2, j) == rdiv(m.cof_spec(j, k2) * SCALE, m.det_spec()),
    ensures
        2 * fxabs(inv.at(k2, j) * m.idet() - SCALE as int * m.icof(j, k2)) <= fxabs(m.idet()),
{
    let k: int = SCALE as int;
    let dd: int = m.idet();
    let q: int = inv.at(k2, j);
    let cc: int = m.icof(j, k2);
    lemma_minor_scale(m, j, k2);
    crate::scalar::lemma_rdiv_err(m.cof_spec(j, k2) * k, k * dd);
    assert(q * (k * dd) == k * (q * dd)) by {
        lemma_triple_comm(q, k, dd);
    }
    assert((k * cc) * k == k * (k * cc)) by {
        vstd::arithmetic::mul::lemma_mul_is_associative(k, cc, k);
        vstd::arithmetic::mul::lemma_mul_is_commutative(cc, k);
    }
    assert(k * (q * dd) - k * (k * cc) == k * (q * dd - k * cc)) by {
        lemma_distr2(k, q * dd, k * cc);
    }
    assert(fxabs(k * (q * dd - k * cc)) == k * fxabs(q * dd - k * cc)) by {
        crate::scalar::lemma_abs_mul(q * dd - k * cc, k);
        vstd::arithmetic::mul::lemma_mul_is_commutative(q * dd - k * cc, k);
    }
    assert(fxabs(k * dd) == k * fxabs(dd)) by {
        crate::scalar::lemma_abs_mul(dd, k);
        vstd::arithmetic::mul::lemma_mul_is_commutative(dd, k);
    }
}

/// One entry of the round trip `M * M.inverse()`: the exact adjugate
/// identity pins the ideal value, and each rounding contributes at most
/// half a unit amplified by a whole-unit entry.
proof fn lemma_round_trip_entry(m: Matrix4x4, inv: Matrix4x4, prod: Matrix4x4, i: int, j: int)
    requires
        m.aligned(),
        forall|r: int, c: int|
            0 <= r < 4 && 0 <= c < 4 ==> fxabs(#[trigger] m.at(r, c)) <= 100 * SCALE,
        fxabs(m.det_spec()) >= EPSILON,
        forall|r: int, c: int|
            0 <= r < 4 && 0 <= c < 4 ==> #[trigger] inv.at(r, c) == rdiv(
                m.cof_spec(c, r) * SCALE,
                m.det_spec(),
            ),
        forall|r: int, c: int|
            0 <= r < 4 && 0 <= c < 4 ==> #[trigger] prod.at(r, c) == m.mul_entry(inv, r, c),
        0 <= i < 4,
        0 <= j < 4,
    ensures
        fxabs(
            prod.at(i, j) - if i == j {
                SCALE as int
            } else {
                0
            },
        ) <= 1000,
{
    let k: int = SCALE as int;
    lemma_det_scale(m);
    let dd: int = m.idet();
    if dd == 0 {
        assert(m.det_spec() == 0);
        assert(false);
    }
    assert(inv.at(0, j) == rdiv(m.cof_spec(j, 0) * SCALE, m.det_spec()));
    assert(inv.at(1, j) == rdiv(m.cof_spec(j, 1) * SCALE, m.det_spec()));
    assert(inv.at(2, j) == rdiv(m.cof_spec(j, 2) * SCALE, m.det_spec()));
    assert(inv.at(3, j) == rdiv(m.cof_spec(j, 3) * SCALE, m.det_spec()));
    lemma_inv_entry_scaled_err(m, inv, j, 0);
    lemma_inv_entry_scaled_err(m, inv, j, 1);
    lemma_inv_entry_scaled_err(m, inv, j, 2);
    lemma_inv_entry_scaled_err(m, inv, j, 3);
    let q0: int = inv.at(0, j);
    let q1: int = inv.at(1, j);
    let q2: int = inv.at(2, j);
    let q3: int = inv.at(3, j);
    let w0: int = m.iw(i, 0);
    let w1: int = m.iw(i, 1);
    let w2: int = m.iw(i, 2);
    let w3: int = m.iw(i, 3);
    let cc0: int = m.icof(j, 0);
    let cc1: int = m.icof(j, 1);
    let cc2: int = m.icof(j, 2);
    let cc3: int = m.icof(j, 3);
    let s0: int = q0 * dd - k * cc0;
    let s1: int = q1 * dd - k * cc1;
    let s2: int = q2 * dd - k * cc2;
    let s3: int = q3 * dd - k * cc3;
    // the product entry is the whole-unit dot product, exactly
    assert(m.at(i, 0) % k == 0);
    assert(m.at(i, 1) % k == 0);
    assert(m.at(i, 2) % k == 0);
    assert(m.at(i, 3) % k == 0);
    lemma_aligned_val(m.at(i, 0));
    lemma_aligned_val(m.at(i, 1));
    lemma_aligned_val(m.at(i, 2));
    lemma_aligned_val(m.at(i, 3));
    let t: int = w0 * q0 + w1 * q1 + w2 * q2 + w3 * q3;
    assert(prod.at(i, j) == m.mul_entry(inv, i, j));
    assert(m.mul_entry_wide(inv, i, j) == k * t) by {
        vstd::arithmetic::mul::lemma_mul_is_associative(k, w0, q0);
        vstd::arithmetic::mul::lemma_mul_is_associative(k, w1, q1);
        vstd::arithmetic::mul::lemma_mul_is_associative(k, w2, q2);
        vstd::arithmetic::mul::lemma_mul_is_associative(k, w3, q3);
        lemma_distr_add4(k, w0 * q0, w1 * q1, w2 * q2, w3 * q3);
    }
    assert(prod.at(i, j) == t) by {
        vstd::arithmetic::mul::lemma_mul_is_commutative(k, t);
        lemma_round_div_exact(t, k);
    }
    // the ideal value comes from the adjugate identity
    lemma_adjugate(m, i, j);
    let delta: int = if i == j {
        1
    } else {
        0
    };
    assert(t * dd == k * (w0 * cc0 + w1 * cc1 + w2 * cc2 + w3 * cc3) + (w0 * s0 + w1 * s1 + w2
        * s2 + w3 * s3)) by {
        vstd::arithmetic::mul::lemma_mul_is_commutative(t, dd);
        lemma_distr_add4(dd, w0 * q0, w1 * q1, w2 * q2, w3 * q3);
        vstd::arithmetic::mul::lemma_mul_is_commutative(dd, w0 * q0);
        vstd::arithmetic::mul::lemma_mul_is_commutative(dd, w1 * q1);
        vstd::arithmetic::mul::lemma_mul_is_commutative(dd, w2 * q2);
        vstd::arithmetic::mul::lemma_mul_is_commutative(dd, w3 * q3);
        vstd::arithmetic::mul::lemma_mul_is_associative(w0, q0, dd);
        vstd::arithmetic::mul::lemma_mul_is_associative(w1, q1, dd);
        vstd::arithmetic::mul::lemma_mul_is_associative(w2, q2, dd);
        vstd::arithmetic::mul::lemma_mul_is_associative(w3, q3, dd);
        vstd::arithmetic::mul::lemma_mul_is_distributive_add(w0, k * cc0, s0);
        vstd::arithmetic::mul::lemma_mul_is_distributive_add(w1, k * cc1, s1);
        vstd::arithmetic::mul::lemma_mul_is_distributive_add(w2, k * cc2, s2);
        vstd::arithmetic::mul::lemma_mul_is_distributive_add(w3, k * cc3, s3);
        lemma_triple_comm(w0, k, cc0);
        lemma_triple_comm(w1, k, cc1);
        lemma_triple_comm(w2, k, cc2);
        lemma_triple_comm(w3, k, cc3);
        lemma_distr_add4(k, w0 * cc0, w1 * cc1, w2 * cc2, w3 * cc3);
    }
    assert((t - k * delta) * dd == w0 * s0 + w1 * s1 + w2 * s2 + w3 * s3) by {
        vstd::arithmetic::mul::lemma_mul_is_distributive_sub_other_way(dd, t, k * delta);
        vstd::arithmetic::mul::lemma_mul_is_associative(k, delta, dd);
        if i == j {
            assert(delta * dd == dd);
        } else {
            assert(delta * dd == 0);
        }
    }
    // each rounding error term is bounded by a hundred determinants
    assert(fxabs(m.at(i, 0)) <= 100 * SCALE);
    assert(fxabs(m.at(i, 1)) <= 100 * SCALE);
    assert(fxabs(m.at(i, 2)) <= 100 * SCALE);
    assert(fxabs(m.at(i, 3)) <= 100 * SCALE);
    lemma_whole_bound(m.at(i, 0), w0);
    lemma_whole_bound(m.at(i, 1), w1);
    lemma_whole_bound(m.at(i, 2), w2);
    lemma_whole_bound(m.at(i, 3), w3);
    lemma_err_term_bound(w0, s0, dd);
    lemma_err_term_bound(w1, s1, dd);
    lemma_err_term_bound(w2, s2, dd);
    lemma_err_term_bound(w3, s3, dd);
    // conclude: the deviation times |det| is at most 200 |det|
    let dev: int = t - k * delta;
    crate::scalar::lemma_abs_mul_general(dev, dd);
    if fxabs(dev) > 200 {
        assert(201 * fxabs(dd) <= fxabs(dev) * fxabs(dd)) by {
            vstd::arithmetic::mul::lemma_mul_inequality(201, fxabs(dev), fxabs(dd));
        }
        assert(false);
    }
}

/// A whole-unit entry bounded by a hundred units has a whole value of
/// at most one hundred.
proof fn lemma_whole_bound(e: int, w: int)
    requires
        e == SCALE as int * w,
        fxabs(e) <= 100 * SCALE,
    ensures
        fxabs(w) <= 100,
{
    assert(fxabs(SCALE as int * w) == fxabs(w) * SCALE as int) by {
        crate::scalar::lemma_abs_mul(w, SCALE as int);
        vstd::arithmetic::mul::lemma_mul_is_commutative(SCALE as int, w);
    }
}

/// One rounding-error term of the round trip: a whole value of at most
/// one hundred times an error of at most half a determinant.
proof fn lemma_err_term_bound(w: int, s: int, dd: int)
    requires
        fxabs(w) <= 100,
        2 * fxabs(s) <= fxabs(dd),
    ensures
        2 * fxabs(w * s) <= 100 * fxabs(dd),
{
    crate::scalar::lemma_abs_mul_general(w, s);
    assert(fxabs(w) * fxabs(s) <= 100 * fxabs(s)) by {
        vstd::arithmetic::mul::lemma_mul_inequality(fxabs(w), 100, fxabs(s));
    }
}

/// Matrix inverse round trip: for a whole-valued matrix with entries of
/// at most one hundred units whose determinant clears the tolerance,
/// multiplying the matrix by its adjugate-method inverse lands within
/// 1e-6 of the identity in every entry.
pub proof fn lemma_inverse_round_trip(m: Matrix4x4, inv: Matrix4x4, prod: Matrix4x4)
    requires
        m.aligned(),
        forall|r: int, c: int|
            0 <= r < 4 && 0 <= c < 4 ==> fxabs(#[trigger] m.at(r, c)) <= 100 * SCALE,
        fxabs(m.det_spec()) >= EPSILON,
        forall|r: int, c: int|
            0 <= r < 4 && 0 <= c < 4 ==> #[trigger] inv.at(r, c) == rdiv(
                m.cof_spec(c, r) * SCALE,
                m.det_spec(),
            ),
        forall|r: int, c: int|
            0 <= r < 4 && 0 <= c < 4 ==> #[trigger] prod.at(r, c) == m.mul_entry(inv, r, c),
    ensures
        forall|r: int, c: int|
            0 <= r < 4 && 0 <= c < 4 ==> fxabs(
                #[trigger] prod.at(r, c) - if r == c {
                    SCALE as int
                } else {
                    0
                },
            ) <= 1000,
{
    assert forall|r: int, c: int| 0 <= r < 4 && 0 <= c < 4 implies fxabs(
        #[trigger] prod.at(r, c) - if r == c {
            SCALE as int
        } else {
            0
        },
    ) <= 1000 by {
        lemma_round_trip_entry(m, inv, prod, r, c);
    }
}

} // verus!
