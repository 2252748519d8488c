//! The capability every scene object offers — intersection test and color
//! query — and the simplest object implementing it, an axis-aligned panel.
//!
//! Geometry beyond the panel (spheres and the like) is left to users of
//! the library: any type whose `hit` and `color` match its own `spec_hit`
//! and `spec_color` can populate a scene.

use vstd::prelude::*;

verus! {

use crate::color::Color;
use crate::hit::Hit;
use crate::math::clamp;
use crate::math::clamp_i128;
use crate::math::div_trunc;
use crate::math::div_trunc_i128;
use crate::ray::Ray;
use crate::vector::Vec3;
use crate::vector::COORD_BOUND;
use crate::vector::UNIT;

/// What the renderer asks of a scene object: report an intersection with
/// a ray, and give the surface color at a point. Both must agree with the
/// object's own specification functions, and a reported hit must be
/// well-formed so the shader can bounce off it.
pub trait Hitable: Sized {
    /// The hit this object reports for `ray`, if any.
    spec fn spec_hit(&self, ray: Ray) -> Option<Hit>;

    /// The surface color this object reports at `point`.
    spec fn spec_color(&self, point: Vec3) -> Color;

    /// Intersection test: the nearest surface point of this object along
    /// the ray's forward direction, if the ray meets it.
    fn hit(&self, ray: Ray) -> (r: Option<Hit>)
        requires
            ray.wf(),
        ensures
            r == self.spec_hit(ray),
            (r matches Some(h) ==> h.wf()),
    ;

    /// The surface color at `point`.
    fn color(&self, point: Vec3) -> (c: Color)
        ensures
            c == self.spec_color(point),
    ;
}

/// An axis-aligned wall: the whole plane at height `z`, facing either the
/// positive or the negative z direction, painted one constant color.
#[derive(Clone, Copy, PartialEq, Eq, Structural, Debug)]
pub struct Panel {
    /// The plane's z coordinate, in fixed point.
    pub z: i64,
    /// Whether the normal points toward positive z.
    pub faces_positive_z: bool,
    /// The color reported everywhere on the panel.
    pub color: Color,
}

impl Panel {
    /// Whether the ray runs toward the panel's painted side.
    pub open spec fn spec_approaches(&self, ray: Ray) -> bool {
        if self.faces_positive_z {
            ray.dir.z < 0 && ray.pos.z > self.z
        } else {
            ray.dir.z > 0 && ray.pos.z < self.z
        }
    }

    /// Distance along the ray to the plane, in fixed point, saturated at
    /// the largest representable distance.
    pub open spec fn spec_dist(&self, ray: Ray) -> u64 {
        let gap: int = if self.faces_positive_z {
            ray.pos.z - self.z
        } else {
            self.z - ray.pos.z
        };
        let mag: int = if ray.dir.z >= 0 {
            ray.dir.z as int
        } else {
            -(ray.dir.z as int)
        };
        let q = gap * (UNIT as int) / mag;
        if q > u64::MAX {
            u64::MAX
        } else {
            q as u64
        }
    }

    /// The intersection point: the ray origin advanced by the hit
    /// distance, saturated into the world coordinate range.
    pub open spec fn spec_point(&self, ray: Ray) -> Vec3 {
        let d = self.spec_dist(ray) as int;
        Vec3 {
            x: clamp(ray.pos.x + div_trunc(ray.dir.x * d, UNIT as int), COORD_BOUND as int) as i64,
            y: clamp(ray.pos.y + div_trunc(ray.dir.y * d, UNIT as int), COORD_BOUND as int) as i64,
            z: clamp(ray.pos.z + div_trunc(ray.dir.z * d, UNIT as int), COORD_BOUND as int) as i64,
        }
    }

    /// The unit normal of the painted side.
    pub open spec fn spec_normal(&self) -> Vec3 {
        if self.faces_positive_z {
            Vec3 { x: 0, y: 0, z: UNIT }
        } else {
            Vec3 { x: 0, y: 0, z: (-UNIT) as i64 }
        }
    }

    /// One component of the ray origin advanced by `dir_c * dist / UNIT`.
    fn advance_coord(pos_c: i64, dir_c: i64, dist: u64) -> (r: i64)
        requires
            -COORD_BOUND <= pos_c <= COORD_BOUND,
            -1048576 <= dir_c <= 1048576,
        ensures
            r == clamp(pos_c + div_trunc(dir_c * dist, UNIT as int), COORD_BOUND as int),
    {
        proof {
            assert(-19342813113834066795298816 <= (dir_c as int) * (dist as int)
                <= 19342813113834066795298816) by (nonlinear_arith)
                requires
                    -1048576 <= dir_c as int <= 1048576,
                    0 <= dist as int <= 18446744073709551615,
            ;
        }
        let step = div_trunc_i128((dir_c as i128) * (dist as i128), 65536);
        clamp_i128((pos_c as i128) + step, COORD_BOUND)
    }
}

impl Hitable for Panel {
    open spec fn spec_hit(&self, ray: Ray) -> Option<Hit> {
        if self.spec_approaches(ray) {
            Some(
                Hit {
                    dist: self.spec_dist(ray),
                    hit_point: self.spec_point(ray),
                    normal: self.spec_normal(),
                },
            )
        } else {
            None
        }
    }

    open spec fn spec_color(&self, point: Vec3) -> Color {
        self.color
    }

    fn hit(&self, ray: Ray) -> (r: Option<Hit>) {
        let approaches = if self.faces_positive_z {
            ray.dir.z < 0 && ray.pos.z > self.z
        } else {
            ray.dir.z > 0 && ray.pos.z < self.z
        };
        if !approaches {
            return None;
        }
        let gap: i128 = if self.faces_positive_z {
            (ray.pos.z as i128) - (self.z as i128)
        } else {
            (self.z as i128) - (ray.pos.z as i128)
        };
        let mag: i128 = if ray.dir.z >= 0 {
            ray.dir.z as i128
        } else {
            -(ray.dir.z as i128)
        };
        let q: u128 = ((gap as u128) * 65536) / (mag as u128);
        let dist: u64 = if q > 18446744073709551615u128 {
            18446744073709551615u64
        } else {
            q as u64
        };
        proof {
            assert(dist == self.spec_dist(ray));
        }
        let hit_point = Vec3 {
            x: Panel::advance_coord(ray.pos.x, ray.dir.x, dist),
            y: Panel::advance_coord(ray.pos.y, ray.dir.y, dist),
            z: Panel::advance_coord(ray.pos.z, ray.dir.z, dist),
        };
        let normal = if self.faces_positive_z {
            Vec3 { x: 0, y: 0, z: UNIT }
        } else {
            Vec3 { x: 0, y: 0, z: -UNIT }
        };
        Some(Hit { dist, hit_point, normal })
    }

    fn color(&self, point: Vec3) -> (c: Color) {
        self.color
    }
}

} // verus!
