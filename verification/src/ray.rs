//! Rays: an origin and a direction, constructed fresh for every cast and
//! never mutated.

use vstd::prelude::*;

verus! {

use crate::vector::Vec3;

/// A half-line through the scene: origin `pos` and direction `dir`. The
/// direction is expected to be unit length; well-formedness only demands
/// the component ranges that keep the fixed-point arithmetic exact.
#[derive(Clone, Copy, PartialEq, Eq, Structural, Debug)]
pub struct Ray {
    pub pos: Vec3,
    pub dir: Vec3,
}

impl Ray {
    /// A well-formed ray: origin within the world coordinate range,
    /// direction within the direction range.
    pub open spec fn wf(self) -> bool {
        self.pos.coord_bounded() && self.dir.dir_bounded()
    }
}

} // verus!
