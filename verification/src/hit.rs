//! Hit records: what a successful intersection test reports back to the
//! shader. The scene's search pairs each record with the index of the
//! object that produced it, which serves as the handle for color queries.

use vstd::prelude::*;

verus! {

use crate::vector::Vec3;

/// A surface intersection: distance from the ray origin (fixed point,
/// never negative), the intersection point, and the surface normal there
/// (expected unit length).
#[derive(Clone, Copy, PartialEq, Eq, Structural, Debug)]
pub struct Hit {
    pub dist: u64,
    pub hit_point: Vec3,
    pub normal: Vec3,
}

impl Hit {
    /// A well-formed record: the point within the world coordinate range,
    /// the normal within the direction range, so a bounced ray built from
    /// it is well-formed in turn.
    pub open spec fn wf(self) -> bool {
        self.hit_point.coord_bounded() && self.normal.dir_bounded()
    }
}

} // verus!
