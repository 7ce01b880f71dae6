//! Points, rectangles and bounding extents in physical coordinates.
//!
//! Coordinates are exact rationals: an integer database-unit coordinate
//! times the library's unit factor.  Extents start empty and fold in one
//! point at a time; downstream scale computation refuses empty extents.

use crate::rat::Rat;
use vstd::prelude::*;

verus! {

/// A point in physical coordinates.
#[derive(Clone, Copy, Debug, PartialEq, Eq, Structural)]
pub struct Point {
    pub x: Rat,
    pub y: Rat,
}

/// A displacement in physical coordinates.
#[derive(Clone, Copy, Debug, PartialEq, Eq, Structural)]
pub struct Vector {
    pub x: Rat,
    pub y: Rat,
}

/// An axis-aligned rectangle.
#[derive(Clone, Copy, Debug, PartialEq, Eq, Structural)]
pub struct Rect {
    pub min: Point,
    pub max: Point,
}

impl Point {
    pub open spec fn wf(self) -> bool {
        self.x.wf() && self.y.wf()
    }
}

impl Rect {
    pub open spec fn wf(self) -> bool {
        self.min.wf() && self.max.wf()
    }
}

/// The bounding box of everything folded in so far.
#[derive(Clone, Copy, Debug, PartialEq, Eq, Structural)]
pub struct Extents {
    pub rect: Rect,
    pub empty: bool,
}

/// The rectangle that results from widening `e` just enough to cover `p`.
/// The first point becomes the rectangle; afterwards each side moves only
/// when the point lies strictly beyond it.
pub open spec fn spec_add_point(e: Extents, p: Point) -> Extents {
    if e.empty {
        Extents { rect: Rect { min: p, max: p }, empty: false }
    } else {
        Extents {
            rect: Rect {
                min: Point {
                    x: if p.x.spec_lt(e.rect.min.x) {
                        p.x
                    } else {
                        e.rect.min.x
                    },
                    y: if p.y.spec_lt(e.rect.min.y) {
                        p.y
                    } else {
                        e.rect.min.y
                    },
                },
                max: Point {
                    x: if e.rect.max.x.spec_lt(p.x) {
                        p.x
                    } else {
                        e.rect.max.x
                    },
                    y: if e.rect.max.y.spec_lt(p.y) {
                        p.y
                    } else {
                        e.rect.max.y
                    },
                },
            },
            empty: false,
        }
    }
}

/// Extents after folding in every point of `pts`, in order.
pub open spec fn spec_fold_points(e: Extents, pts: Seq<Point>) -> Extents
    decreases pts.len(),
{
    if pts.len() == 0 {
        e
    } else {
        spec_add_point(spec_fold_points(e, pts.drop_last()), pts.last())
    }
}

/// The value fresh extents start from: empty, with a zero placeholder
/// rectangle.
pub open spec fn spec_empty_extents() -> Extents {
    Extents {
        rect: Rect {
            min: Point { x: Rat { num: 0, den: 1 }, y: Rat { num: 0, den: 1 } },
            max: Point { x: Rat { num: 0, den: 1 }, y: Rat { num: 0, den: 1 } },
        },
        empty: true,
    }
}

impl Extents {
    pub open spec fn wf(self) -> bool {
        self.rect.wf()
    }

    /// Fresh extents: empty, with a zero placeholder rectangle.
    pub fn new() -> (r: Extents)
        ensures
            r == spec_empty_extents(),
            r.wf(),
            r.empty,
    {
        let zp = Point { x: Rat::zero(), y: Rat::zero() };
        Extents { rect: Rect { min: zp, max: zp }, empty: true }
    }

    /// Folds one point into the extents.
    pub fn add_point(&mut self, p: &Point)
        requires
            old(self).wf(),
            p.wf(),
        ensures
            *final(self) == spec_add_point(*old(self), *p),
            final(self).wf(),
            !final(self).empty,
    {
        if self.empty {
            self.rect = Rect { min: *p, max: *p };
            self.empty = false;
        } else {
            if p.x.lt(&self.rect.min.x) {
                self.rect.min.x = p.x;
            }
            if p.y.lt(&self.rect.min.y) {
                self.rect.min.y = p.y;
            }
            if self.rect.max.x.lt(&p.x) {
                self.rect.max.x = p.x;
            }
            if self.rect.max.y.lt(&p.y) {
                self.rect.max.y = p.y;
            }
        }
    }
}

/// Folding preserves well-formedness, and extents are empty exactly when no
/// point was ever folded in.
pub proof fn lemma_fold_points_empty(e: Extents, pts: Seq<Point>)
    requires
        e.wf(),
        forall|i: int| 0 <= i < pts.len() ==> (#[trigger] pts[i]).wf(),
    ensures
        spec_fold_points(e, pts).wf(),
        spec_fold_points(e, pts).empty == (e.empty && pts.len() == 0),
    decreases pts.len(),
{
    if pts.len() > 0 {
        lemma_fold_points_empty(e, pts.drop_last());
    }
}

/// Every point folded into extents lies inside the final rectangle.
pub proof fn lemma_fold_points_cover(e: Extents, pts: Seq<Point>, i: int)
    requires
        e.wf(),
        forall|k: int| 0 <= k < pts.len() ==> (#[trigger] pts[k]).wf(),
        0 <= i < pts.len(),
    ensures
        spec_fold_points(e, pts).rect.min.x.spec_le(pts[i].x),
        spec_fold_points(e, pts).rect.min.y.spec_le(pts[i].y),
        pts[i].x.spec_le(spec_fold_points(e, pts).rect.max.x),
        pts[i].y.spec_le(spec_fold_points(e, pts).rect.max.y),
    decreases pts.len(),
{
    lemma_fold_points_empty(e, pts.drop_last());
    let prev = spec_fold_points(e, pts.drop_last());
    if i < pts.len() - 1 {
        lemma_fold_points_cover(e, pts.drop_last(), i);
        lemma_mono_step(prev, pts.last(), pts[i]);
    }
}

/// One folding step only widens the rectangle.
proof fn lemma_mono_step(e: Extents, p: Point, q: Point)
    requires
        e.wf(),
        p.wf(),
        q.wf(),
        !e.empty,
        e.rect.min.x.spec_le(q.x),
        e.rect.min.y.spec_le(q.y),
        q.x.spec_le(e.rect.max.x),
        q.y.spec_le(e.rect.max.y),
    ensures
        spec_add_point(e, p).rect.min.x.spec_le(q.x),
        spec_add_point(e, p).rect.min.y.spec_le(q.y),
        q.x.spec_le(spec_add_point(e, p).rect.max.x),
        q.y.spec_le(spec_add_point(e, p).rect.max.y),
{
    lemma_le_mix(p.x, e.rect.min.x, q.x);
    lemma_le_mix(p.y, e.rect.min.y, q.y);
    lemma_le_mix_hi(e.rect.max.x, p.x, q.x);
    lemma_le_mix_hi(e.rect.max.y, p.y, q.y);
}

/// If `a < b` and `b <= c` as fraction values then `a <= c`.
proof fn lemma_le_mix(a: Rat, b: Rat, c: Rat)
    requires
        a.wf(),
        b.wf(),
        c.wf(),
        b.spec_le(c),
    ensures
        a.spec_lt(b) ==> a.spec_le(c),
{
    if a.spec_lt(b) {
        lemma_rat_le_trans(a, b, c);
    }
}

/// If `c <= b` and `b < a` as fraction values then `c <= a`.
proof fn lemma_le_mix_hi(b: Rat, a: Rat, c: Rat)
    requires
        a.wf(),
        b.wf(),
        c.wf(),
        c.spec_le(b),
    ensures
        b.spec_lt(a) ==> c.spec_le(a),
{
    if b.spec_lt(a) {
        lemma_rat_le_trans(c, b, a);
    }
}

/// Transitivity of the fraction-value order.
pub proof fn lemma_rat_le_trans(a: Rat, b: Rat, c: Rat)
    requires
        a.wf(),
        b.wf(),
        c.wf(),
        a.spec_le(b),
        b.spec_le(c),
    ensures
        a.spec_le(c),
{
    assert(a.num * c.den <= c.num * a.den) by (nonlinear_arith)
        requires
            a.den > 0,
            b.den > 0,
            c.den > 0,
            a.num * b.den <= b.num * a.den,
            b.num * c.den <= c.num * b.den,
    ;
}

} // verus!
