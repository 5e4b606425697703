use vstd::prelude::*;

verus! {

/// A 2-D affine transform encoded as a 3x2 matrix: a linear part
/// (`m11`, `m12`, `m21`, `m22`) and a translation (`m31`, `m32`).
///
/// Coordinates are plain integers; the only mutation the simulation performs
/// is a unit translation per queued input event, with saturation at the ends
/// of the coordinate range.
#[derive(Clone, Copy, PartialEq, Eq, Structural, Debug)]
#[verifier::ext_equal]
pub struct Transform2D {
    pub m11: i64,
    pub m12: i64,
    pub m21: i64,
    pub m22: i64,
    pub m31: i64,
    pub m32: i64,
}

/// Mathematical saturating addition on the `i64` range.
pub open spec fn sat_add(a: int, b: int) -> int {
    if a + b > i64::MAX as int {
        i64::MAX as int
    } else if a + b < i64::MIN as int {
        i64::MIN as int
    } else {
        a + b
    }
}

/// Saturating addition, proved equal to [`sat_add`].
pub fn sat_add_i64(a: i64, b: i64) -> (r: i64)
    ensures
        r as int == sat_add(a as int, b as int),
{
    if b >= 0 {
        if a > i64::MAX - b {
            i64::MAX
        } else {
            a + b
        }
    } else {
        if a < i64::MIN - b {
            i64::MIN
        } else {
            a + b
        }
    }
}

impl Transform2D {
    /// The identity transform.
    pub open spec fn spec_identity() -> Transform2D {
        Transform2D { m11: 1, m12: 0, m21: 0, m22: 1, m31: 0, m32: 0 }
    }

    /// Builds the identity transform.
    pub fn identity() -> (r: Transform2D)
        ensures
            r == Transform2D::spec_identity(),
    {
        Transform2D { m11: 1, m12: 0, m21: 0, m22: 1, m31: 0, m32: 0 }
    }

    /// The transform moved by `(dx, dy)`, saturating at the coordinate range.
    pub open spec fn spec_translated(self, dx: int, dy: int) -> Transform2D {
        Transform2D {
            m31: sat_add(self.m31 as int, dx) as i64,
            m32: sat_add(self.m32 as int, dy) as i64,
            ..self
        }
    }

    /// Moves the transform by `(dx, dy)`, saturating at the coordinate range.
    pub fn translated(self, dx: i64, dy: i64) -> (r: Transform2D)
        ensures
            r == self.spec_translated(dx as int, dy as int),
    {
        Transform2D { m31: sat_add_i64(self.m31, dx), m32: sat_add_i64(self.m32, dy), ..self }
    }
}

} // verus!
