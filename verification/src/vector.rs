//! Three-component vectors over 16.16 fixed-point scalars.
//!
//! A scalar is an `i64` holding the real value times [`UNIT`]. Directions
//! are kept within [`DIR_BOUND`] per component and positions within
//! [`COORD_BOUND`]; the operations that could drift past a range saturate
//! into it, so well-formedness is preserved across any number of bounces.

use vstd::prelude::*;

verus! {

use crate::math::clamp;
use crate::math::clamp_i128;
use crate::math::div_trunc;
use crate::math::div_trunc_i128;
use crate::math::isqrt;
use crate::math::lemma_sqrt_floor_bounds;
use crate::math::sqrt_floor;

/// One whole unit in the 16.16 fixed-point encoding of scalars; a unit
/// vector has length `UNIT`. The literal `4294967296` appearing in the
/// reflection formulas is `UNIT * UNIT`.
pub const UNIT: i64 = 65536;

/// Largest magnitude a direction component may take: 16 units, ample for
/// any near-unit direction a reflection can produce.
pub const DIR_BOUND: i64 = 1048576;

/// Largest magnitude a position component may take: the representable
/// world range, two to the fortieth.
pub const COORD_BOUND: i64 = 1099511627776;

/// Largest magnitude allowed into [`Vec3::unit`], small enough that the
/// squared length fits the square-root routine.
pub const NORM_BOUND: i64 = 1073741824;

/// A vector of three fixed-point scalars.
#[derive(Clone, Copy, PartialEq, Eq, Structural, Debug)]
pub struct Vec3 {
    pub x: i64,
    pub y: i64,
    pub z: i64,
}

impl Vec3 {
    /// All components lie within the direction range.
    pub open spec fn dir_bounded(self) -> bool {
        &&& -DIR_BOUND <= self.x <= DIR_BOUND
        &&& -DIR_BOUND <= self.y <= DIR_BOUND
        &&& -DIR_BOUND <= self.z <= DIR_BOUND
    }

    /// All components lie within the world coordinate range.
    pub open spec fn coord_bounded(self) -> bool {
        &&& -COORD_BOUND <= self.x <= COORD_BOUND
        &&& -COORD_BOUND <= self.y <= COORD_BOUND
        &&& -COORD_BOUND <= self.z <= COORD_BOUND
    }

    /// The raw dot product: the fixed-point dot product times `UNIT`.
    pub open spec fn spec_dot_raw(self, other: Vec3) -> int {
        self.x * other.x + self.y * other.y + self.z * other.z
    }

    /// Mirror reflection of `self` about `normal`: `d - 2 (d . n) n` in
    /// fixed point, each component saturated into the direction range.
    pub open spec fn spec_bounce(self, normal: Vec3) -> Vec3 {
        let raw2 = 2 * self.spec_dot_raw(normal);
        Vec3 {
            x: clamp(self.x - div_trunc(raw2 * normal.x, 4294967296), DIR_BOUND as int) as i64,
            y: clamp(self.y - div_trunc(raw2 * normal.y, 4294967296), DIR_BOUND as int) as i64,
            z: clamp(self.z - div_trunc(raw2 * normal.z, 4294967296), DIR_BOUND as int) as i64,
        }
    }

    /// The squared length of `self`, times `UNIT` squared.
    pub open spec fn spec_len2(self) -> nat {
        (self.x * self.x + self.y * self.y + self.z * self.z) as nat
    }

    /// `self` rescaled to length `UNIT`, each component rounded toward
    /// zero and saturated into the direction range.
    pub open spec fn spec_unit(self) -> Vec3 {
        let len = sqrt_floor(self.spec_len2()) as int;
        Vec3 {
            x: clamp(div_trunc(self.x * (UNIT as int), len), DIR_BOUND as int) as i64,
            y: clamp(div_trunc(self.y * (UNIT as int), len), DIR_BOUND as int) as i64,
            z: clamp(div_trunc(self.z * (UNIT as int), len), DIR_BOUND as int) as i64,
        }
    }

    /// A vector from its three components.
    pub fn new(x: i64, y: i64, z: i64) -> (v: Vec3)
        ensures
            v == (Vec3 { x, y, z }),
    {
        Vec3 { x, y, z }
    }

    /// The incoming direction reflected about a surface normal, in fixed
    /// point; on unit inputs this is the mirror bounce of the ray.
    pub fn bounce_with_normal(self, normal: Vec3) -> (r: Vec3)
        requires
            self.dir_bounded(),
            normal.dir_bounded(),
        ensures
            r == self.spec_bounce(normal),
            r.dir_bounded(),
    {
        proof {
            assert(-1099511627776 <= (self.x as int) * (normal.x as int) <= 1099511627776
                && -1099511627776 <= (self.y as int) * (normal.y as int) <= 1099511627776
                && -1099511627776 <= (self.z as int) * (normal.z as int) <= 1099511627776)
                by (nonlinear_arith)
                requires
                    -1048576 <= self.x as int <= 1048576,
                    -1048576 <= self.y as int <= 1048576,
                    -1048576 <= self.z as int <= 1048576,
                    -1048576 <= normal.x as int <= 1048576,
                    -1048576 <= normal.y as int <= 1048576,
                    -1048576 <= normal.z as int <= 1048576,
            ;
        }
        let px = (self.x as i128) * (normal.x as i128);
        let py = (self.y as i128) * (normal.y as i128);
        let pz = (self.z as i128) * (normal.z as i128);
        let raw2: i128 = 2 * (px + py + pz);
        proof {
            assert(-6917529027641081856 <= (raw2 as int) * (normal.x as int) <= 6917529027641081856
                && -6917529027641081856 <= (raw2 as int) * (normal.y as int) <= 6917529027641081856
                && -6917529027641081856 <= (raw2 as int) * (normal.z as int) <= 6917529027641081856)
                by (nonlinear_arith)
                requires
                    -6597069766656 <= raw2 as int <= 6597069766656,
                    -1048576 <= normal.x as int <= 1048576,
                    -1048576 <= normal.y as int <= 1048576,
                    -1048576 <= normal.z as int <= 1048576,
            ;
        }
        let tx = div_trunc_i128(raw2 * (normal.x as i128), 4294967296);
        let ty = div_trunc_i128(raw2 * (normal.y as i128), 4294967296);
        let tz = div_trunc_i128(raw2 * (normal.z as i128), 4294967296);
        let rx = clamp_i128((self.x as i128) - tx, DIR_BOUND);
        let ry = clamp_i128((self.y as i128) - ty, DIR_BOUND);
        let rz = clamp_i128((self.z as i128) - tz, DIR_BOUND);
        Vec3 { x: rx, y: ry, z: rz }
    }

    /// `self` rescaled to unit length (`UNIT`), rounding toward zero; the
    /// vector must be nonzero and small enough to square.
    pub fn unit(self) -> (r: Vec3)
        requires
            -NORM_BOUND <= self.x <= NORM_BOUND,
            -NORM_BOUND <= self.y <= NORM_BOUND,
            -NORM_BOUND <= self.z <= NORM_BOUND,
            !(self.x == 0 && self.y == 0 && self.z == 0),
        ensures
            r == self.spec_unit(),
            r.dir_bounded(),
    {
        proof {
            assert(0 <= (self.x as int) * (self.x as int) <= 1152921504606846976
                && 0 <= (self.y as int) * (self.y as int) <= 1152921504606846976
                && 0 <= (self.z as int) * (self.z as int) <= 1152921504606846976)
                by (nonlinear_arith)
                requires
                    -1073741824 <= self.x as int <= 1073741824,
                    -1073741824 <= self.y as int <= 1073741824,
                    -1073741824 <= self.z as int <= 1073741824,
            ;
        }
        let len2_wide: i128 = (self.x as i128) * (self.x as i128) + (self.y as i128) * (self.y as i128)
            + (self.z as i128) * (self.z as i128);
        let len2: u64 = len2_wide as u64;
        let len: u64 = isqrt(len2);
        proof {
            assert(len2 as nat == self.spec_len2());
            lemma_sqrt_floor_bounds(len2 as nat);
            if len == 0 {
                assert((sqrt_floor(len2 as nat) + 1) * (sqrt_floor(len2 as nat) + 1) == 1)
                    by (nonlinear_arith)
                    requires
                        sqrt_floor(len2 as nat) == 0nat,
                ;
                assert(len2 == 0);
                lemma_square_zero(self.x as int);
                lemma_square_zero(self.y as int);
                lemma_square_zero(self.z as int);
            }
            assert(-70368744177664 <= (self.x as int) * (UNIT as int) <= 70368744177664
                && -70368744177664 <= (self.y as int) * (UNIT as int) <= 70368744177664
                && -70368744177664 <= (self.z as int) * (UNIT as int) <= 70368744177664)
                by (nonlinear_arith)
                requires
                    -1073741824 <= self.x as int <= 1073741824,
                    -1073741824 <= self.y as int <= 1073741824,
                    -1073741824 <= self.z as int <= 1073741824,
                    UNIT as int == 65536,
            ;
        }
        let ux = clamp_i128(div_trunc_i128((self.x as i128) * (UNIT as i128), len as i128), DIR_BOUND);
        let uy = clamp_i128(div_trunc_i128((self.y as i128) * (UNIT as i128), len as i128), DIR_BOUND);
        let uz = clamp_i128(div_trunc_i128((self.z as i128) * (UNIT as i128), len as i128), DIR_BOUND);
        Vec3 { x: ux, y: uy, z: uz }
    }
}

/// Only zero squares to less than one.
proof fn lemma_square_zero(a: int)
    requires
        a * a < 1,
    ensures
        a == 0,
{
    assert(a == 0) by (nonlinear_arith)
        requires
            a * a < 1,
    ;
}

} // verus!
