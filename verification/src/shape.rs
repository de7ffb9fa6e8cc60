//! Vector shapes: lane count, per-lane byte width, and scalar kind.

use vstd::prelude::*;

verus! {

/// The interpretation of a single lane's bit pattern.
#[derive(Clone, Copy, PartialEq, Eq, Structural, Debug)]
pub enum ScalarKind {
    SignedInt,
    UnsignedInt,
    Float,
}

/// Describes a vector type's layout: how many lanes it has, how many bytes
/// each lane occupies, and how a lane's bits are interpreted.
#[derive(Clone, Copy, PartialEq, Eq, Structural, Debug)]
pub struct VectorShape {
    pub lane_count: usize,
    pub lane_width: usize,
    pub kind: ScalarKind,
}

impl VectorShape {
    /// Total width of a vector of this shape, in bytes.
    pub open spec fn total_bytes(self) -> nat {
        (self.lane_count * self.lane_width) as nat
    }

    /// A well-formed shape has at least one lane, a lane width of 1, 2, 4 or
    /// 8 bytes, and a total width equal to one of the supported hardware
    /// register widths (16, 32 or 64 bytes). Floating lanes are 4 or 8 bytes.
    pub open spec fn wf(self) -> bool {
        &&& self.lane_count >= 1
        &&& (self.lane_width == 1 || self.lane_width == 2 || self.lane_width == 4
            || self.lane_width == 8)
        &&& (self.total_bytes() == 16 || self.total_bytes() == 32 || self.total_bytes() == 64)
        &&& (self.kind == ScalarKind::Float ==> self.lane_width == 4 || self.lane_width == 8)
    }

    /// Builds a shape, accepting exactly the well-formed combinations.
    pub fn new(lane_count: usize, lane_width: usize, kind: ScalarKind) -> (r: Option<VectorShape>)
        ensures
            r matches Some(s) ==> s == (VectorShape { lane_count, lane_width, kind }) && s.wf(),
            r is None ==> !(VectorShape { lane_count, lane_width, kind }).wf(),
    {
        if lane_count >= 1 && lane_count <= 64 && (lane_width == 1 || lane_width == 2
            || lane_width == 4 || lane_width == 8) {
            proof {
                assert(lane_count * lane_width <= 512) by (nonlinear_arith)
                    requires
                        lane_count <= 64,
                        lane_width <= 8,
                ;
            }
            let total: usize = lane_count * lane_width;
            if (total == 16 || total == 32 || total == 64)
                && (!matches!(kind, ScalarKind::Float) || lane_width == 4 || lane_width == 8) {
                Some(VectorShape { lane_count, lane_width, kind })
            } else {
                None
            }
        } else {
            proof {
                if lane_count > 64 && lane_width >= 1 {
                    assert(lane_count * lane_width > 64) by (nonlinear_arith)
                        requires
                            lane_count > 64,
                            lane_width >= 1,
                    ;
                }
            }
            None
        }
    }

    /// Total width of the vector in bytes.
    pub fn width_bytes(&self) -> (r: usize)
        requires
            self.wf(),
        ensures
            r == self.total_bytes(),
    {
        proof {
            assert(self.lane_count * self.lane_width <= 64);
        }
        self.lane_count * self.lane_width
    }
}

} // verus!
