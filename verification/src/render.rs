//! The layered renderer: a deterministic drawing plan.
//!
//! Rendering is expressed as an ordered command list for a raster backend.
//! All fills complete before any stroke begins; within each pass the layers
//! are visited in list order, which the preparer sorted ascending by
//! z-order.  Each boundary contributes a closed path: its first point is
//! the implicit closer, so the path starts at the second point and
//! `ClosePath` finishes the polygon.

use crate::Error;
use crate::color::ColorRgb;
use crate::geometry::Point;
use crate::prepare::{Boundary, BoundaryV, Layer, LayerV, view_boundaries, view_layers};
use crate::rat::Rat;
use crate::style::{spec_fill_style, spec_stroke_style};
use crate::transform::Transform;
use vstd::prelude::*;

verus! {

/// One command for the raster backend.
#[derive(Debug, PartialEq)]
pub enum RenderCmd {
    SetSourceRgb(ColorRgb),
    SetSourceRgba(ColorRgb, Rat),
    Paint,
    PushGroup,
    PopGroupToSource,
    PaintWithAlpha(Rat),
    MoveTo(Point),
    LineTo(Point),
    ClosePath,
    Fill,
    Stroke,
    SetDash(Vec<Rat>),
    SetLineWidth(Rat),
    Save,
    Restore,
}

/// The mathematical value of a command.
pub enum CmdV {
    SetSourceRgb(ColorRgb),
    SetSourceRgba(ColorRgb, Rat),
    Paint,
    PushGroup,
    PopGroupToSource,
    PaintWithAlpha(Rat),
    MoveTo(Point),
    LineTo(Point),
    ClosePath,
    Fill,
    Stroke,
    SetDash(Seq<Rat>),
    SetLineWidth(Rat),
    Save,
    Restore,
}

impl View for RenderCmd {
    type V = CmdV;

    open spec fn view(&self) -> CmdV {
        match self {
            RenderCmd::SetSourceRgb(c) => CmdV::SetSourceRgb(*c),
            RenderCmd::SetSourceRgba(c, a) => CmdV::SetSourceRgba(*c, *a),
            RenderCmd::Paint => CmdV::Paint,
            RenderCmd::PushGroup => CmdV::PushGroup,
            RenderCmd::PopGroupToSource => CmdV::PopGroupToSource,
            RenderCmd::PaintWithAlpha(a) => CmdV::PaintWithAlpha(*a),
            RenderCmd::MoveTo(p) => CmdV::MoveTo(*p),
            RenderCmd::LineTo(p) => CmdV::LineTo(*p),
            RenderCmd::ClosePath => CmdV::ClosePath,
            RenderCmd::Fill => CmdV::Fill,
            RenderCmd::Stroke => CmdV::Stroke,
            RenderCmd::SetDash(d) => CmdV::SetDash(d@),
            RenderCmd::SetLineWidth(w) => CmdV::SetLineWidth(*w),
            RenderCmd::Save => CmdV::Save,
            RenderCmd::Restore => CmdV::Restore,
        }
    }
}

pub open spec fn view_cmds(s: Seq<RenderCmd>) -> Seq<CmdV> {
    s.map_values(|c: RenderCmd| c@)
}

// ---------------------------------------------------------------------------
// transformed boundaries
// ---------------------------------------------------------------------------
/// A point mapped to pixel coordinates, exactly.
pub open spec fn spec_tx_point(t: Transform, p: Point) -> Point {
    Point {
        x: Rat { num: t.spec_apply_x(p).num as i64, den: t.spec_apply_x(p).den as i64 },
        y: Rat { num: t.spec_apply_y(p).num as i64, den: t.spec_apply_y(p).den as i64 },
    }
}

pub open spec fn spec_tx_boundary(t: Transform, b: BoundaryV) -> BoundaryV {
    BoundaryV { layer_id: b.layer_id, points: b.points.map_values(|p: Point| spec_tx_point(t, p)) }
}

pub open spec fn spec_tx_all(t: Transform, bs: Seq<BoundaryV>) -> Seq<BoundaryV> {
    bs.map_values(|b: BoundaryV| spec_tx_boundary(t, b))
}

/// Every intermediate of every point's mapping stays in machine range.
pub open spec fn spec_tx_fits(t: Transform, bs: Seq<BoundaryV>) -> bool {
    forall|i: int, k: int|
        0 <= i < bs.len() && 0 <= k < bs[i].points.len() ==> t.apply_fits(
            #[trigger] bs[i].points[k],
        )
}

/// Maps every boundary point to pixel coordinates; refuses the plan when a
/// coordinate leaves the machine range.
pub fn transform_boundaries(t: &Transform, bs: &Vec<Boundary>) -> (r: Result<Vec<Boundary>, Error>)
    requires
        t.wf(),
        forall|i: int, k: int|
            0 <= i < bs@.len() && 0 <= k < bs@[i].points@.len() ==> (#[trigger] bs@[i].points@[k]).wf(),
    ensures
        match r {
            Ok(v) => spec_tx_fits(*t, view_boundaries(bs@)) && view_boundaries(v@) == spec_tx_all(
                *t,
                view_boundaries(bs@),
            ),
            Err(e) => e == Error::Overflow && !spec_tx_fits(*t, view_boundaries(bs@)),
        },
{
    let ghost bsv = view_boundaries(bs@);
    let mut out: Vec<Boundary> = Vec::new();
    let mut i: usize = 0;
    proof {
        assert(view_boundaries(out@) =~= spec_tx_all(*t, bsv.take(0)));
    }
    while i < bs.len()
        invariant
            0 <= i <= bs@.len(),
            bsv == view_boundaries(bs@),
            t.wf(),
            forall|b: int, k: int|
                0 <= b < bsv.len() && 0 <= k < bsv[b].points.len() ==> (
                #[trigger] bsv[b].points[k]).wf(),
            forall|b: int, k: int|
                0 <= b < i && 0 <= k < bsv[b].points.len() ==> t.apply_fits(
                    #[trigger] bsv[b].points[k],
                ),
            view_boundaries(out@) == spec_tx_all(*t, bsv.take(i as int)),
        decreases bs@.len() - i,
    {
        let src: &Boundary = &bs[i];
        let mut pts: Vec<Point> = Vec::new();
        let mut k: usize = 0;
        proof {
            assert(pts@ =~= bsv[i as int].points.take(0).map_values(
                |p: Point| spec_tx_point(*t, p),
            ));
        }
        while k < src.points.len()
            invariant
                0 <= i < bs@.len(),
                0 <= k <= src.points@.len(),
                src == &bs@[i as int],
                bsv == view_boundaries(bs@),
                t.wf(),
                forall|b: int, m: int|
                    0 <= b < bsv.len() && 0 <= m < bsv[b].points.len() ==> (
                    #[trigger] bsv[b].points[m]).wf(),
                forall|m: int| 0 <= m < k ==> t.apply_fits(#[trigger] bsv[i as int].points[m]),
                pts@ == bsv[i as int].points.take(k as int).map_values(
                    |p: Point| spec_tx_point(*t, p),
                ),
            decreases src.points@.len() - k,
        {
            let p: Point = src.points[k];
            proof {
                assert(p == bsv[i as int].points[k as int]);
            }
            match t.apply(&p) {
                Some(q) => {
                    pts.push(q);
                    proof {
                        assert(bsv[i as int].points.take(k + 1 as int).map_values(
                            |p: Point| spec_tx_point(*t, p),
                        ) =~= bsv[i as int].points.take(k as int).map_values(
                            |p: Point| spec_tx_point(*t, p),
                        ).push(spec_tx_point(*t, bsv[i as int].points[k as int])));
                    }
                },
                None => {
                    return Err(Error::Overflow);
                },
            }
            k += 1;
        }
        proof {
            assert(bsv[i as int].points.take(bsv[i as int].points.len() as int) =~= bsv[i as int]
                .points);
        }
        let b = Boundary { layer_id: src.layer_id, points: pts };
        proof {
            assert(b@ == spec_tx_boundary(*t, bsv[i as int]));
            assert(view_boundaries(out@.push(b)) =~= view_boundaries(out@).push(b@));
            assert(spec_tx_all(*t, bsv.take(i + 1 as int)) =~= spec_tx_all(*t, bsv.take(i as int))
                .push(spec_tx_boundary(*t, bsv[i as int])));
        }
        out.push(b);
        i += 1;
    }
    proof {
        assert(bsv.take(bsv.len() as int) =~= bsv);
    }
    Ok(out)
}

// ---------------------------------------------------------------------------
// the plan
// ---------------------------------------------------------------------------
/// The path and paint commands of one boundary: start at the second point,
/// line through the rest, close back, then fill or stroke.
pub open spec fn spec_path_cmds(b: BoundaryV, op: CmdV) -> Seq<CmdV> {
    if b.points.len() >= 2 {
        seq![CmdV::MoveTo(b.points[1])] + Seq::new(
            (b.points.len() - 2) as nat,
            |k: int| CmdV::LineTo(b.points[2 + k]),
        ) + seq![CmdV::ClosePath, op]
    } else {
        seq![CmdV::ClosePath, op]
    }
}

/// The paths of every boundary on one layer, in boundary order.
pub open spec fn spec_geom_cmds(bs: Seq<BoundaryV>, id: u16, op: CmdV) -> Seq<CmdV>
    decreases bs.len(),
{
    if bs.len() == 0 {
        Seq::empty()
    } else {
        spec_geom_cmds(bs.drop_last(), id, op) + (if bs.last().layer_id == id {
            spec_path_cmds(bs.last(), op)
        } else {
            Seq::empty()
        })
    }
}

/// One layer's fill: an isolated group filled at the style's alpha, so
/// self-overlapping polygons do not double-blend.  A layer without a
/// drawable fill style contributes nothing.
pub open spec fn spec_fill_layer_cmds(l: LayerV, bs: Seq<BoundaryV>) -> Seq<CmdV> {
    match spec_fill_style(l.style) {
        None => Seq::empty(),
        Some(fs) => seq![CmdV::PushGroup, CmdV::SetSourceRgb(fs.color)] + spec_geom_cmds(
            bs,
            l.id,
            CmdV::Fill,
        ) + seq![CmdV::PopGroupToSource, CmdV::PaintWithAlpha(fs.alpha)],
    }
}

/// The fill pass: every layer in list order.
pub open spec fn spec_fill_pass(ls: Seq<LayerV>, bs: Seq<BoundaryV>) -> Seq<CmdV>
    decreases ls.len(),
{
    if ls.len() == 0 {
        Seq::empty()
    } else {
        spec_fill_pass(ls.drop_last(), bs) + spec_fill_layer_cmds(ls.last(), bs)
    }
}

/// One layer's stroke: color and alpha set directly, the dash pattern if
/// present, the line width, then the paths.  A layer without a drawable
/// stroke style contributes nothing.
pub open spec fn spec_stroke_layer_cmds(l: LayerV, bs: Seq<BoundaryV>) -> Seq<CmdV> {
    match spec_stroke_style(l.style) {
        None => Seq::empty(),
        Some(ss) => seq![CmdV::Save, CmdV::SetSourceRgba(ss.color, ss.alpha)] + (match ss.dashes {
            Some(d) => seq![CmdV::SetDash(d)],
            None => Seq::empty(),
        }) + seq![CmdV::SetLineWidth(ss.width)] + spec_geom_cmds(bs, l.id, CmdV::Stroke) + seq![
            CmdV::Restore,
        ],
    }
}

/// The stroke pass: every layer in list order.
pub open spec fn spec_stroke_pass(ls: Seq<LayerV>, bs: Seq<BoundaryV>) -> Seq<CmdV>
    decreases ls.len(),
{
    if ls.len() == 0 {
        Seq::empty()
    } else {
        spec_stroke_pass(ls.drop_last(), bs) + spec_stroke_layer_cmds(ls.last(), bs)
    }
}

/// The background, painted once before either pass.
pub open spec fn spec_bg_cmds(bg: Option<ColorRgb>) -> Seq<CmdV> {
    match bg {
        Some(c) => seq![CmdV::SetSourceRgb(c), CmdV::Paint],
        None => Seq::empty(),
    }
}

/// The whole plan: background, then every fill, then every stroke.
pub open spec fn spec_plan_cmds(
    bg: Option<ColorRgb>,
    ls: Seq<LayerV>,
    bs: Seq<BoundaryV>,
) -> Seq<CmdV> {
    spec_bg_cmds(bg) + spec_fill_pass(ls, bs) + spec_stroke_pass(ls, bs)
}

/// Builds one boundary's path commands.
fn path_cmds_vec(b: &Boundary, stroke_op: bool) -> (r: Vec<RenderCmd>)
    ensures
        view_cmds(r@) == spec_path_cmds(
            b@,
            if stroke_op {
                CmdV::Stroke
            } else {
                CmdV::Fill
            },
        ),
{
    let ghost op: CmdV = if stroke_op {
        CmdV::Stroke
    } else {
        CmdV::Fill
    };
    let mut out: Vec<RenderCmd> = Vec::new();
    if b.points.len() >= 2 {
        out.push(RenderCmd::MoveTo(b.points[1]));
        let mut k: usize = 2;
        while k < b.points.len()
            invariant
                2 <= k <= b.points@.len(),
                b.points@.len() >= 2,
                view_cmds(out@) =~= seq![CmdV::MoveTo(b.points@[1])] + Seq::new(
                    (k - 2) as nat,
                    |m: int| CmdV::LineTo(b.points@[2 + m]),
                ),
            decreases b.points@.len() - k,
        {
            let ghost pre = view_cmds(out@);
            out.push(RenderCmd::LineTo(b.points[k]));
            proof {
                assert(view_cmds(out@) =~= pre.push(CmdV::LineTo(b.points@[k as int])));
                assert(view_cmds(out@) =~= seq![CmdV::MoveTo(b.points@[1])] + Seq::new(
                    (k + 1 - 2) as nat,
                    |m: int| CmdV::LineTo(b.points@[2 + m]),
                ));
            }
            k += 1;
        }
    }
    out.push(RenderCmd::ClosePath);
    if stroke_op {
        out.push(RenderCmd::Stroke);
    } else {
        out.push(RenderCmd::Fill);
    }
    proof {
        assert(view_cmds(out@) =~= spec_path_cmds(b@, op));
    }
    out
}

/// Builds the paths of every boundary on one layer.
fn geom_cmds_vec(bs: &Vec<Boundary>, id: u16, stroke_op: bool) -> (r: Vec<RenderCmd>)
    ensures
        view_cmds(r@) == spec_geom_cmds(
            view_boundaries(bs@),
            id,
            if stroke_op {
                CmdV::Stroke
            } else {
                CmdV::Fill
            },
        ),
{
    let ghost op: CmdV = if stroke_op {
        CmdV::Stroke
    } else {
        CmdV::Fill
    };
    let ghost bsv = view_boundaries(bs@);
    let mut out: Vec<RenderCmd> = Vec::new();
    let mut i: usize = 0;
    proof {
        assert(view_cmds(out@) =~= spec_geom_cmds(bsv.take(0), id, op));
    }
    while i < bs.len()
        invariant
            0 <= i <= bs@.len(),
            bsv == view_boundaries(bs@),
            op == if stroke_op {
                CmdV::Stroke
            } else {
                CmdV::Fill
            },
            view_cmds(out@) == spec_geom_cmds(bsv.take(i as int), id, op),
        decreases bs@.len() - i,
    {
        proof {
            assert(bsv.take(i + 1 as int).drop_last() =~= bsv.take(i as int));
            assert(bsv.take(i + 1 as int).last() == bsv[i as int]);
        }
        if bs[i].layer_id == id {
            let mut seg: Vec<RenderCmd> = path_cmds_vec(&bs[i], stroke_op);
            proof {
                assert(view_cmds(out@ + seg@) =~= view_cmds(out@) + view_cmds(seg@));
            }
            out.append(&mut seg);
        }
        proof {
            assert(view_cmds(out@) =~= spec_geom_cmds(bsv.take(i + 1 as int), id, op));
        }
        i += 1;
    }
    proof {
        assert(bsv.take(bsv.len() as int) =~= bsv);
    }
    out
}

/// Builds the whole drawing plan for already-transformed boundaries.
pub fn build_plan(layers: &Vec<Layer>, bs: &Vec<Boundary>, bg: &Option<ColorRgb>) -> (r: Vec<
    RenderCmd,
>)
    ensures
        view_cmds(r@) == spec_plan_cmds(*bg, view_layers(layers@), view_boundaries(bs@)),
{
    let ghost lsv = view_layers(layers@);
    let ghost bsv = view_boundaries(bs@);
    let mut out: Vec<RenderCmd> = Vec::new();
    match bg {
        Some(c) => {
            out.push(RenderCmd::SetSourceRgb(*c));
            out.push(RenderCmd::Paint);
        },
        None => {},
    }
    proof {
        assert(view_cmds(out@) =~= spec_bg_cmds(*bg));
    }
    let mut i: usize = 0;
    proof {
        assert(view_cmds(out@) + spec_fill_pass(lsv.take(0), bsv) =~= view_cmds(out@));
    }
    while i < layers.len()
        invariant
            0 <= i <= layers@.len(),
            lsv == view_layers(layers@),
            bsv == view_boundaries(bs@),
            view_cmds(out@) == spec_bg_cmds(*bg) + spec_fill_pass(lsv.take(i as int), bsv),
        decreases layers@.len() - i,
    {
        proof {
            assert(lsv.take(i + 1 as int).drop_last() =~= lsv.take(i as int));
            assert(lsv.take(i + 1 as int).last() == lsv[i as int]);
        }
        proof {
            assert(lsv[i as int] == layers@[i as int]@);
        }
        let ghost pre = view_cmds(out@);
        match layers[i].style.get_fill_style() {
            Some(fs) => {
                out.push(RenderCmd::PushGroup);
                proof {
                    assert(view_cmds(out@) =~= pre.push(CmdV::PushGroup));
                }
                out.push(RenderCmd::SetSourceRgb(fs.color));
                proof {
                    assert(view_cmds(out@) =~= pre.push(CmdV::PushGroup).push(
                        CmdV::SetSourceRgb(fs.color),
                    ));
                }
                let ghost pre2 = view_cmds(out@);
                let mut seg: Vec<RenderCmd> = geom_cmds_vec(bs, layers[i].id, false);
                proof {
                    assert(view_cmds(out@ + seg@) =~= view_cmds(out@) + view_cmds(seg@));
                }
                let ghost segv = view_cmds(seg@);
                out.append(&mut seg);
                out.push(RenderCmd::PopGroupToSource);
                proof {
                    assert(view_cmds(out@) =~= (pre2 + segv).push(CmdV::PopGroupToSource));
                }
                out.push(RenderCmd::PaintWithAlpha(fs.alpha));
                proof {
                    assert(view_cmds(out@) =~= (pre2 + segv).push(CmdV::PopGroupToSource).push(
                        CmdV::PaintWithAlpha(fs.alpha),
                    ));
                }
            },
            None => {},
        }
        proof {
            assert(view_cmds(out@) =~= spec_bg_cmds(*bg) + spec_fill_pass(
                lsv.take(i + 1 as int),
                bsv,
            ));
        }
        i += 1;
    }
    proof {
        assert(lsv.take(lsv.len() as int) =~= lsv);
    }
    let ghost fills_done = view_cmds(out@);
    let mut j: usize = 0;
    proof {
        assert(fills_done + spec_stroke_pass(lsv.take(0), bsv) =~= fills_done);
    }
    while j < layers.len()
        invariant
            0 <= j <= layers@.len(),
            lsv == view_layers(layers@),
            bsv == view_boundaries(bs@),
            fills_done == spec_bg_cmds(*bg) + spec_fill_pass(lsv, bsv),
            view_cmds(out@) == fills_done + spec_stroke_pass(lsv.take(j as int), bsv),
        decreases layers@.len() - j,
    {
        proof {
            assert(lsv.take(j + 1 as int).drop_last() =~= lsv.take(j as int));
            assert(lsv.take(j + 1 as int).last() == lsv[j as int]);
        }
        proof {
            assert(lsv[j as int] == layers@[j as int]@);
        }
        let ghost pre = view_cmds(out@);
        match layers[j].style.get_stroke_style() {
            Some(ss) => {
                let ghost ssv = ss@;
                out.push(RenderCmd::Save);
                proof {
                    assert(view_cmds(out@) =~= pre.push(CmdV::Save));
                }
                out.push(RenderCmd::SetSourceRgba(ss.color, ss.alpha));
                proof {
                    assert(view_cmds(out@) =~= pre.push(CmdV::Save).push(
                        CmdV::SetSourceRgba(ssv.color, ssv.alpha),
                    ));
                }
                match ss.dashes {
                    Some(d) => {
                        let ghost pre1 = view_cmds(out@);
                        out.push(RenderCmd::SetDash(d));
                        proof {
                            assert(view_cmds(out@) =~= pre1.push(CmdV::SetDash(ssv.dashes->0)));
                        }
                    },
                    None => {},
                }
                let ghost pre2 = view_cmds(out@);
                out.push(RenderCmd::SetLineWidth(ss.width));
                proof {
                    assert(view_cmds(out@) =~= pre2.push(CmdV::SetLineWidth(ssv.width)));
                }
                let ghost pre3 = view_cmds(out@);
                let mut seg: Vec<RenderCmd> = geom_cmds_vec(bs, layers[j].id, true);
                proof {
                    assert(view_cmds(out@ + seg@) =~= view_cmds(out@) + view_cmds(seg@));
                }
                let ghost segv = view_cmds(seg@);
                out.append(&mut seg);
                out.push(RenderCmd::Restore);
                proof {
                    assert(view_cmds(out@) =~= (pre3 + segv).push(CmdV::Restore));
                }
            },
            None => {},
        }
        proof {
            assert(view_cmds(out@) =~= fills_done + spec_stroke_pass(lsv.take(j + 1 as int), bsv));
        }
        j += 1;
    }
    proof {
        assert(lsv.take(lsv.len() as int) =~= lsv);
        assert(view_cmds(out@) =~= spec_plan_cmds(*bg, lsv, bsv));
    }
    out
}

} // verus!
