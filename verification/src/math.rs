//! The affine transform carried by every scene node.
//!
//! A transform maps a point `p` to `[a b; c d] * p + (tx, ty)`. The crate
//! builds the transforms that need no arithmetic and stores the rest as its
//! caller computed them.

use vstd::prelude::*;
use crate::scalar::ONE_BITS;
use crate::scalar::Scalar;

verus! {

/// Six coefficients of a 2D affine map.
#[derive(Clone, Copy, PartialEq, Eq, Structural, Debug)]
pub struct TransformMatrix {
    pub a: Scalar,
    pub b: Scalar,
    pub c: Scalar,
    pub d: Scalar,
    pub tx: Scalar,
    pub ty: Scalar,
}

impl TransformMatrix {
    /// The map that moves nothing, as a specification value.
    pub open spec fn identity_value() -> TransformMatrix {
        TransformMatrix::translate_value(Scalar { bits: 0 }, Scalar { bits: 0 })
    }

    /// The translation by `(tx, ty)`, as a specification value.
    pub open spec fn translate_value(tx: Scalar, ty: Scalar) -> TransformMatrix {
        TransformMatrix {
            a: Scalar { bits: ONE_BITS },
            b: Scalar { bits: 0 },
            c: Scalar { bits: 0 },
            d: Scalar { bits: ONE_BITS },
            tx,
            ty,
        }
    }

    /// The axis-wise scaling by `(sx, sy)`, as a specification value.
    pub open spec fn scale_value(sx: Scalar, sy: Scalar) -> TransformMatrix {
        TransformMatrix {
            a: sx,
            b: Scalar { bits: 0 },
            c: Scalar { bits: 0 },
            d: sy,
            tx: Scalar { bits: 0 },
            ty: Scalar { bits: 0 },
        }
    }

    /// The identity map: unit diagonal, nothing else.
    pub fn identity() -> (m: TransformMatrix)
        ensures
            m == TransformMatrix::identity_value(),
    {
        TransformMatrix::translate(Scalar::zero(), Scalar::zero())
    }

    /// The translation by `(tx, ty)`.
    pub fn translate(tx: Scalar, ty: Scalar) -> (m: TransformMatrix)
        ensures
            m == TransformMatrix::translate_value(tx, ty),
    {
        TransformMatrix {
            a: Scalar::one(),
            b: Scalar::zero(),
            c: Scalar::zero(),
            d: Scalar::one(),
            tx,
            ty,
        }
    }

    /// The scaling by `sx` along x and `sy` along y, about the origin.
    pub fn scale(sx: Scalar, sy: Scalar) -> (m: TransformMatrix)
        ensures
            m == TransformMatrix::scale_value(sx, sy),
    {
        TransformMatrix {
            a: sx,
            b: Scalar::zero(),
            c: Scalar::zero(),
            d: sy,
            tx: Scalar::zero(),
            ty: Scalar::zero(),
        }
    }

    /// The translation part `(tx, ty)`.
    pub fn translation(&self) -> (t: (Scalar, Scalar))
        ensures
            t == (self.tx, self.ty),
    {
        (self.tx, self.ty)
    }
}

impl Default for TransformMatrix {
    fn default() -> (m: TransformMatrix)
        ensures
            m == TransformMatrix::identity_value(),
    {
        TransformMatrix::identity()
    }
}

} // verus!
