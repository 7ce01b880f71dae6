//! Affine maps from physical coordinates to pixel coordinates.
//!
//! A transform is two basis vectors and a translation:
//! `(x, y) -> (va.x * x + vb.x * y + vt.x,  va.y * x + vb.y * y + vt.y)`.
//! Scaling and translating accumulate in application order, as on the
//! drawing backend they stand for.  Every operation is exact; one that
//! would leave the machine range returns `None`.

use crate::geometry::{Point, Vector};
use crate::rat::{Rat, RatV, rv_add, rv_mul};
use vstd::prelude::*;

verus! {

/// An affine map held as two basis vectors plus a translation.
#[derive(Clone, Copy, Debug, PartialEq, Eq, Structural)]
pub struct Transform {
    pub va: Vector,
    pub vb: Vector,
    pub vt: Vector,
}

impl Transform {
    pub open spec fn wf(self) -> bool {
        &&& self.va.x.wf() && self.va.y.wf()
        &&& self.vb.x.wf() && self.vb.y.wf()
        &&& self.vt.x.wf() && self.vt.y.wf()
    }

    /// The identity map.
    pub fn identity() -> (r: Transform)
        ensures
            r.wf(),
            r.va.x@.is_int(1) && r.va.y@.is_int(0),
            r.vb.x@.is_int(0) && r.vb.y@.is_int(1),
            r.vt.x@.is_int(0) && r.vt.y@.is_int(0),
    {
        Transform {
            va: Vector { x: Rat::from_int(1), y: Rat::zero() },
            vb: Vector { x: Rat::zero(), y: Rat::from_int(1) },
            vt: Vector { x: Rat::zero(), y: Rat::zero() },
        }
    }

    /// All six products of a scale step stay in machine range.
    pub open spec fn scale_fits(self, sx: Rat, sy: Rat) -> bool {
        &&& rv_mul(self.va.x@, sx@).fits()
        &&& rv_mul(self.va.y@, sy@).fits()
        &&& rv_mul(self.vb.x@, sx@).fits()
        &&& rv_mul(self.vb.y@, sy@).fits()
        &&& rv_mul(self.vt.x@, sx@).fits()
        &&& rv_mul(self.vt.y@, sy@).fits()
    }

    /// Scales the map: x components by `sx`, y components by `sy`.
    pub fn scale(self, sx: Rat, sy: Rat) -> (r: Option<Transform>)
        requires
            self.wf(),
            sx.wf(),
            sy.wf(),
        ensures
            match r {
                Some(t) => self.scale_fits(sx, sy) && t.wf() && t.va.x@ == rv_mul(self.va.x@, sx@)
                    && t.va.y@ == rv_mul(self.va.y@, sy@) && t.vb.x@ == rv_mul(self.vb.x@, sx@)
                    && t.vb.y@ == rv_mul(self.vb.y@, sy@) && t.vt.x@ == rv_mul(self.vt.x@, sx@)
                    && t.vt.y@ == rv_mul(self.vt.y@, sy@),
                None => !self.scale_fits(sx, sy),
            },
    {
        match (self.va.x.mul(&sx), self.va.y.mul(&sy), self.vb.x.mul(&sx), self.vb.y.mul(&sy),
            self.vt.x.mul(&sx), self.vt.y.mul(&sy)) {
            (Some(ax), Some(ay), Some(bx), Some(by), Some(tx), Some(ty)) => Some(
                Transform {
                    va: Vector { x: ax, y: ay },
                    vb: Vector { x: bx, y: by },
                    vt: Vector { x: tx, y: ty },
                },
            ),
            _ => None,
        }
    }

    /// Both sums of a translation step stay in machine range.
    pub open spec fn trans_fits(self, tx: Rat, ty: Rat) -> bool {
        &&& rv_add(self.vt.x@, tx@).fits()
        &&& rv_add(self.vt.y@, ty@).fits()
    }

    /// Translates the map by `(tx, ty)`.
    pub fn trans(self, tx: Rat, ty: Rat) -> (r: Option<Transform>)
        requires
            self.wf(),
            tx.wf(),
            ty.wf(),
        ensures
            match r {
                Some(t) => self.trans_fits(tx, ty) && t.wf() && t.va == self.va && t.vb == self.vb
                    && t.vt.x@ == rv_add(self.vt.x@, tx@) && t.vt.y@ == rv_add(self.vt.y@, ty@),
                None => !self.trans_fits(tx, ty),
            },
    {
        match (self.vt.x.add(&tx), self.vt.y.add(&ty)) {
            (Some(nx), Some(ny)) => Some(
                Transform { va: self.va, vb: self.vb, vt: Vector { x: nx, y: ny } },
            ),
            _ => None,
        }
    }

    /// The exact x image of a point under the map.
    pub open spec fn spec_apply_x(self, p: Point) -> RatV {
        rv_add(rv_add(rv_mul(self.va.x@, p.x@), rv_mul(self.vb.x@, p.y@)), self.vt.x@)
    }

    /// The exact y image of a point under the map.
    pub open spec fn spec_apply_y(self, p: Point) -> RatV {
        rv_add(rv_add(rv_mul(self.va.y@, p.x@), rv_mul(self.vb.y@, p.y@)), self.vt.y@)
    }

    /// Every intermediate of an application stays in machine range.
    pub open spec fn apply_fits(self, p: Point) -> bool {
        &&& rv_mul(self.va.x@, p.x@).fits()
        &&& rv_mul(self.vb.x@, p.y@).fits()
        &&& rv_add(rv_mul(self.va.x@, p.x@), rv_mul(self.vb.x@, p.y@)).fits()
        &&& self.spec_apply_x(p).fits()
        &&& rv_mul(self.va.y@, p.x@).fits()
        &&& rv_mul(self.vb.y@, p.y@).fits()
        &&& rv_add(rv_mul(self.va.y@, p.x@), rv_mul(self.vb.y@, p.y@)).fits()
        &&& self.spec_apply_y(p).fits()
    }

    /// Maps a point to pixel coordinates.
    pub fn apply(&self, p: &Point) -> (r: Option<Point>)
        requires
            self.wf(),
            p.wf(),
        ensures
            match r {
                Some(q) => self.apply_fits(*p) && q.wf() && q.x@ == self.spec_apply_x(*p) && q.y@
                    == self.spec_apply_y(*p),
                None => !self.apply_fits(*p),
            },
    {
        let mx1 = self.va.x.mul(&p.x);
        let mx2 = self.vb.x.mul(&p.y);
        let my1 = self.va.y.mul(&p.x);
        let my2 = self.vb.y.mul(&p.y);
        match (mx1, mx2, my1, my2) {
            (Some(ax), Some(bx), Some(ay), Some(by)) => {
                match (ax.add(&bx), ay.add(&by)) {
                    (Some(sx), Some(sy)) => {
                        match (sx.add(&self.vt.x), sy.add(&self.vt.y)) {
                            (Some(qx), Some(qy)) => Some(Point { x: qx, y: qy }),
                            _ => None,
                        }
                    },
                    _ => None,
                }
            },
            _ => None,
        }
    }
}

} // verus!
