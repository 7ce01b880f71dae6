//! The transform and scale calculator, and the whole plot.
//!
//! From the visible extents, the scale policy and the margin this derives
//! the affine map from physical coordinates to pixel coordinates and the
//! final canvas size, then lays the cell out as one drawing plan.  The map
//! anchors the geometry at the origin, scales it uniformly, flips the
//! vertical axis (layout y grows upward, raster rows grow downward) and
//! insets it by the margin.  Empty or zero-area extents are refused:
//! nothing visible can be scaled.

use crate::Error;
use crate::context::{Context, ScaleMode};
use crate::geometry::{Extents, Vector};
use crate::prepare::PreparedStruct;
use crate::rat::{Rat, RatV, fits_i64, rv_mul, rv_sub, trunc_div};
use crate::render::{
    RenderCmd, build_plan, spec_plan_cmds, spec_tx_all, spec_tx_fits, transform_boundaries,
    view_cmds,
};
use crate::transform::Transform;
use vstd::prelude::*;

verus! {

/// The physical width of the extents, as an exact fraction.
pub open spec fn spec_phys_x(ext: Extents) -> RatV {
    rv_sub(ext.rect.max.x@, ext.rect.min.x@)
}

/// The physical height of the extents, as an exact fraction.
pub open spec fn spec_phys_y(ext: Extents) -> RatV {
    rv_sub(ext.rect.max.y@, ext.rect.min.y@)
}

/// Rounding half up: truncation after adding one half.
pub open spec fn round_v(rv: RatV) -> int
    recommends
        rv.den > 0,
{
    trunc_div(2 * rv.num + rv.den, 2 * rv.den)
}

/// The target length divided by a physical length.
pub open spec fn spec_factor(target: int, phys: RatV) -> RatV {
    RatV { num: target * phys.den, den: phys.num }
}

pub open spec fn rv_lt(a: RatV, b: RatV) -> bool {
    a.num * b.den < b.num * a.den
}

/// The uniform scale factor: the resolution itself, or the smaller of the
/// two fit factors, which preserves the aspect ratio within the box.
pub open spec fn spec_scale_rv(scale: ScaleMode, ext: Extents) -> RatV {
    match scale {
        ScaleMode::Resolution(ppm) => ppm@,
        ScaleMode::Size(tw, th) => {
            let fw = spec_factor(tw as int, spec_phys_x(ext));
            let fh = spec_factor(th as int, spec_phys_y(ext));
            if rv_lt(fw, fh) {
                fw
            } else {
                fh
            }
        },
    }
}

/// The canvas width before margins: the scaled physical width rounded; in
/// size mode the requested width when the width factor constrains, else
/// the physical width scaled by the chosen factor.
pub open spec fn spec_w0(scale: ScaleMode, ext: Extents) -> int {
    match scale {
        ScaleMode::Resolution(ppm) => round_v(rv_mul(spec_phys_x(ext), ppm@)),
        ScaleMode::Size(tw, th) => {
            let fw = spec_factor(tw as int, spec_phys_x(ext));
            let fh = spec_factor(th as int, spec_phys_y(ext));
            if rv_lt(fw, fh) {
                tw as int
            } else {
                round_v(rv_mul(spec_phys_x(ext), fh))
            }
        },
    }
}

/// The canvas height before margins.
pub open spec fn spec_h0(scale: ScaleMode, ext: Extents) -> int {
    match scale {
        ScaleMode::Resolution(ppm) => round_v(rv_mul(spec_phys_y(ext), ppm@)),
        ScaleMode::Size(tw, th) => {
            let fw = spec_factor(tw as int, spec_phys_x(ext));
            let fh = spec_factor(th as int, spec_phys_y(ext));
            if rv_lt(fw, fh) {
                round_v(rv_mul(spec_phys_y(ext), fw))
            } else {
                th as int
            }
        },
    }
}

/// Why the layout computation refuses, in check order; `None` means it
/// succeeds.  Empty extents and zero or negative physical area are a
/// missing-geometry condition, a non-positive scale target is refused as
/// such, and any exact intermediate that leaves the machine range is an
/// overflow.
pub open spec fn spec_layout_err(ext: Extents, scale: ScaleMode, margin: i32) -> Option<Error> {
    if ext.empty {
        Some(Error::NoVisibleGeometry)
    } else {
        let px = spec_phys_x(ext);
        let py = spec_phys_y(ext);
        if !px.fits() || !py.fits() {
            Some(Error::Overflow)
        } else if px.num <= 0 || py.num <= 0 {
            Some(Error::NoVisibleGeometry)
        } else {
            match scale {
                ScaleMode::Resolution(ppm) => if ppm@.num <= 0 {
                    Some(Error::BadScaleTarget)
                } else if !rv_mul(px, ppm@).fits() || !rv_mul(py, ppm@).fits() {
                    Some(Error::Overflow)
                } else if !fits_i64(round_v(rv_mul(px, ppm@))) || !fits_i64(
                    round_v(rv_mul(py, ppm@)),
                ) {
                    Some(Error::Overflow)
                } else {
                    spec_tail_err(ext, scale, margin)
                },
                ScaleMode::Size(tw, th) => if tw <= 0 || th <= 0 {
                    Some(Error::BadScaleTarget)
                } else if !fits_i64(tw as int * px.den) || !fits_i64(th as int * py.den) {
                    Some(Error::Overflow)
                } else {
                    let fw = spec_factor(tw as int, px);
                    let fh = spec_factor(th as int, py);
                    if rv_lt(fw, fh) {
                        if !rv_mul(py, fw).fits() {
                            Some(Error::Overflow)
                        } else if !fits_i64(round_v(rv_mul(py, fw))) {
                            Some(Error::Overflow)
                        } else {
                            spec_tail_err(ext, scale, margin)
                        }
                    } else {
                        if !rv_mul(px, fh).fits() {
                            Some(Error::Overflow)
                        } else if !fits_i64(round_v(rv_mul(px, fh))) {
                            Some(Error::Overflow)
                        } else {
                            spec_tail_err(ext, scale, margin)
                        }
                    }
                },
            }
        }
    }
}

/// The checks shared by both modes: margins keep the canvas inside 32-bit
/// range, and the translation components stay exact.
pub open spec fn spec_tail_err(ext: Extents, scale: ScaleMode, margin: i32) -> Option<Error> {
    let s = spec_scale_rv(scale, ext);
    let w0 = spec_w0(scale, ext);
    let h0 = spec_h0(scale, ext);
    let mx = ext.rect.min.x@;
    let my = ext.rect.min.y@;
    if !(i32::MIN <= w0 + 2 * margin <= i32::MAX) || !(i32::MIN <= h0 + 2 * margin <= i32::MAX) {
        Some(Error::Overflow)
    } else if !fits_i64(s.den * mx.den) || !fits_i64(
        margin * (s.den * mx.den) - s.num * mx.num,
    ) {
        Some(Error::Overflow)
    } else if !fits_i64(s.den * my.den) || !fits_i64(
        (h0 + margin) * (s.den * my.den) + s.num * my.num,
    ) {
        Some(Error::Overflow)
    } else {
        None
    }
}

/// The affine map the layout yields: uniform scale, vertical flip, anchor
/// at the extents minimum, margin inset.
pub open spec fn spec_layout_tx(ext: Extents, scale: ScaleMode, margin: i32) -> Transform {
    let s = spec_scale_rv(scale, ext);
    let h0 = spec_h0(scale, ext);
    let mx = ext.rect.min.x@;
    let my = ext.rect.min.y@;
    Transform {
        va: Vector {
            x: Rat { num: s.num as i64, den: s.den as i64 },
            y: Rat { num: 0, den: 1 },
        },
        vb: Vector {
            x: Rat { num: 0, den: 1 },
            y: Rat { num: -s.num as i64, den: s.den as i64 },
        },
        vt: Vector {
            x: Rat {
                num: (margin * (s.den * mx.den) - s.num * mx.num) as i64,
                den: (s.den * mx.den) as i64,
            },
            y: Rat {
                num: ((h0 + margin) * (s.den * my.den) + s.num * my.num) as i64,
                den: (s.den * my.den) as i64,
            },
        },
    }
}

/// Derives the affine map and the final canvas size from the extents, the
/// scale policy and the margin.
pub fn compute_layout(ext: &Extents, scale: &ScaleMode, margin: i32) -> (r: Result<
    (Transform, i32, i32),
    Error,
>)
    requires
        ext.wf(),
        match scale {
            ScaleMode::Resolution(ppm) => ppm.wf(),
            ScaleMode::Size(_, _) => true,
        },
    ensures
        match r {
            Ok(twh) => {
                &&& spec_layout_err(*ext, *scale, margin) is None
                &&& twh.0 == spec_layout_tx(*ext, *scale, margin)
                &&& twh.0.wf()
                &&& twh.1 == spec_w0(*scale, *ext) + 2 * margin
                &&& twh.2 == spec_h0(*scale, *ext) + 2 * margin
            },
            Err(e) => spec_layout_err(*ext, *scale, margin) == Some(e),
        },
{
    if ext.empty {
        return Err(Error::NoVisibleGeometry);
    }
    let phys_x: Rat = match ext.rect.max.x.sub(&ext.rect.min.x) {
        Some(v) => v,
        None => {
            return Err(Error::Overflow);
        },
    };
    let phys_y: Rat = match ext.rect.max.y.sub(&ext.rect.min.y) {
        Some(v) => v,
        None => {
            return Err(Error::Overflow);
        },
    };
    if phys_x.num <= 0 || phys_y.num <= 0 {
        return Err(Error::NoVisibleGeometry);
    }
    let (s, w0, h0): (Rat, i64, i64) = match scale {
        ScaleMode::Resolution(ppm) => {
            if ppm.num <= 0 {
                return Err(Error::BadScaleTarget);
            }
            let sx: Rat = match phys_x.mul(ppm) {
                Some(v) => v,
                None => {
                    return Err(Error::Overflow);
                },
            };
            let sy: Rat = match phys_y.mul(ppm) {
                Some(v) => v,
                None => {
                    return Err(Error::Overflow);
                },
            };
            let w0: i64 = match sx.round_half_up() {
                Some(v) => v,
                None => {
                    return Err(Error::Overflow);
                },
            };
            let h0: i64 = match sy.round_half_up() {
                Some(v) => v,
                None => {
                    return Err(Error::Overflow);
                },
            };
            (*ppm, w0, h0)
        },
        ScaleMode::Size(tw, th) => {
            if *tw <= 0 || *th <= 0 {
                return Err(Error::BadScaleTarget);
            }
            let fw: Rat = match Rat::int_over(*tw, &phys_x) {
                Some(v) => v,
                None => {
                    return Err(Error::Overflow);
                },
            };
            proof {
                assert(fw.num > 0) by (nonlinear_arith)
                    requires
                        fw.num == *tw as int * phys_x.den,
                        *tw > 0,
                        phys_x.den > 0,
                ;
            }
            let fh: Rat = match Rat::int_over(*th, &phys_y) {
                Some(v) => v,
                None => {
                    return Err(Error::Overflow);
                },
            };
            proof {
                assert(fh.num > 0) by (nonlinear_arith)
                    requires
                        fh.num == *th as int * phys_y.den,
                        *th > 0,
                        phys_y.den > 0,
                ;
            }
            if fw.lt(&fh) {
                let hr: Rat = match phys_y.mul(&fw) {
                    Some(v) => v,
                    None => {
                        return Err(Error::Overflow);
                    },
                };
                let h0: i64 = match hr.round_half_up() {
                    Some(v) => v,
                    None => {
                        return Err(Error::Overflow);
                    },
                };
                (fw, *tw as i64, h0)
            } else {
                let wr: Rat = match phys_x.mul(&fh) {
                    Some(v) => v,
                    None => {
                        return Err(Error::Overflow);
                    },
                };
                let w0: i64 = match wr.round_half_up() {
                    Some(v) => v,
                    None => {
                        return Err(Error::Overflow);
                    },
                };
                (fh, w0, *th as i64)
            }
        },
    };
    let wm: i128 = (w0 as i128) + 2 * (margin as i128);
    let hm: i128 = (h0 as i128) + 2 * (margin as i128);
    if wm < i32::MIN as i128 || wm > i32::MAX as i128 || hm < i32::MIN as i128 || hm
        > i32::MAX as i128 {
        return Err(Error::Overflow);
    }
    let mx: Rat = ext.rect.min.x;
    let my: Rat = ext.rect.min.y;
    proof {
        crate::rat::lemma_i64_prod_fits_i128(s.den as int, mx.den as int);
        crate::rat::lemma_i64_prod_fits_i128(s.den as int, my.den as int);
    }
    proof {
        assert((s.den as int) * (mx.den as int) > 0) by (nonlinear_arith)
            requires
                s.den > 0,
                mx.den > 0,
        ;
        assert((s.den as int) * (my.den as int) > 0) by (nonlinear_arith)
            requires
                s.den > 0,
                my.den > 0,
        ;
    }
    let dx128: i128 = (s.den as i128) * (mx.den as i128);
    if dx128 > i64::MAX as i128 {
        return Err(Error::Overflow);
    }
    let dx: i64 = dx128 as i64;
    proof {
        crate::rat::lemma_i64_prod_fits_i128(margin as int, dx as int);
        crate::rat::lemma_i64_prod_fits_i128(s.num as int, mx.num as int);
    }
    let ntx: i128 = match ((margin as i128) * (dx as i128)).checked_sub(
        (s.num as i128) * (mx.num as i128),
    ) {
        Some(v) => v,
        None => {
            return Err(Error::Overflow);
        },
    };
    if ntx < i64::MIN as i128 || ntx > i64::MAX as i128 {
        return Err(Error::Overflow);
    }
    let dy128: i128 = (s.den as i128) * (my.den as i128);
    if dy128 > i64::MAX as i128 {
        return Err(Error::Overflow);
    }
    let dy: i64 = dy128 as i64;
    let h0m: i64 = h0 + (margin as i64);
    proof {
        crate::rat::lemma_i64_prod_fits_i128(h0m as int, dy as int);
        crate::rat::lemma_i64_prod_fits_i128(s.num as int, my.num as int);
    }
    let nty: i128 = match ((h0m as i128) * (dy as i128)).checked_add(
        (s.num as i128) * (my.num as i128),
    ) {
        Some(v) => v,
        None => {
            return Err(Error::Overflow);
        },
    };
    if nty < i64::MIN as i128 || nty > i64::MAX as i128 {
        return Err(Error::Overflow);
    }
    let t = Transform {
        va: Vector { x: s, y: Rat { num: 0, den: 1 } },
        vb: Vector { x: Rat { num: 0, den: 1 }, y: Rat { num: -s.num, den: s.den } },
        vt: Vector {
            x: Rat { num: ntx as i64, den: dx },
            y: Rat { num: nty as i64, den: dy },
        },
    };
    Ok((t, wm as i32, hm as i32))
}

/// One cell's finished drawing plan: the canvas size and the ordered
/// commands, named after the cell.
#[derive(Debug)]
pub struct PlotPlan {
    pub name: String,
    pub width: i32,
    pub height: i32,
    pub cmds: Vec<RenderCmd>,
}

/// Lays one prepared cell out as a drawing plan: derives the transform and
/// canvas from the extents and scale policy, maps every boundary to pixel
/// coordinates, and emits the background, fill and stroke passes in order.
pub fn plot(ctx: &Context, prep: &PreparedStruct) -> (r: Result<PlotPlan, Error>)
    requires
        ctx.wf(),
        prep.extents.wf(),
        forall|b: int, k: int|
            0 <= b < prep.boundaries@.len() && 0 <= k < prep.boundaries@[b].points@.len() ==> (
            #[trigger] prep.boundaries@[b].points@[k]).wf(),
    ensures
        match r {
            Ok(p) => {
                &&& spec_layout_err(prep.extents, ctx@.scale, ctx@.margin) is None
                &&& spec_tx_fits(
                    spec_layout_tx(prep.extents, ctx@.scale, ctx@.margin),
                    crate::prepare::view_boundaries(prep.boundaries@),
                )
                &&& p.name@ == prep.name@
                &&& p.width == spec_w0(ctx@.scale, prep.extents) + 2 * ctx@.margin
                &&& p.height == spec_h0(ctx@.scale, prep.extents) + 2 * ctx@.margin
                &&& view_cmds(p.cmds@) == spec_plan_cmds(
                    ctx@.bg_color,
                    crate::prepare::view_layers(prep.layers@),
                    spec_tx_all(
                        spec_layout_tx(prep.extents, ctx@.scale, ctx@.margin),
                        crate::prepare::view_boundaries(prep.boundaries@),
                    ),
                )
            },
            Err(e) => spec_layout_err(prep.extents, ctx@.scale, ctx@.margin) == Some(e) || (
            spec_layout_err(prep.extents, ctx@.scale, ctx@.margin) is None && e == Error::Overflow
                && !spec_tx_fits(
                spec_layout_tx(prep.extents, ctx@.scale, ctx@.margin),
                crate::prepare::view_boundaries(prep.boundaries@),
            )),
        },
{
    let (t, w, h): (Transform, i32, i32) = match compute_layout(
        &prep.extents,
        &ctx.scale,
        ctx.margin,
    ) {
        Ok(v) => v,
        Err(e) => {
            return Err(e);
        },
    };
    let txbs: Vec<crate::prepare::Boundary> = match transform_boundaries(&t, &prep.boundaries) {
        Ok(v) => v,
        Err(e) => {
            return Err(e);
        },
    };
    let cmds: Vec<RenderCmd> = build_plan(&prep.layers, &txbs, &ctx.bg_color);
    Ok(PlotPlan { name: prep.get_name(), width: w, height: h, cmds })
}

} // verus!
