//! The struct preparer.
//!
//! Walks one cell's elements, filters by the optional layer allow-list,
//! creates exactly one `Layer` record per distinct visible layer id,
//! collects every boundary's points scaled into physical units, folds the
//! bounding extents, and sorts the layer list ascending by z-order with a
//! stable insertion sort: ties keep discovery order.

use crate::context::{Context, CtxV, spec_layer_order, spec_layer_passes, spec_resolve};
use crate::gds::{Elem, ElemKind, Struct, Xy};
use crate::geometry::{Extents, Point, spec_empty_extents, spec_fold_points};
use crate::rat::Rat;
use crate::style::{ClassV, LayerClass};
use vstd::prelude::*;

verus! {

/// One rendered layer: its id, its z-order, and its resolved style.
#[derive(Debug)]
pub struct Layer {
    pub id: u16,
    pub order: i32,
    pub style: LayerClass,
}

/// The mathematical value of a layer record.
pub struct LayerV {
    pub id: u16,
    pub order: i32,
    pub style: ClassV,
}

impl View for Layer {
    type V = LayerV;

    open spec fn view(&self) -> LayerV {
        LayerV { id: self.id, order: self.order, style: self.style@ }
    }
}

impl PartialEq for Layer {
    /// Layers are equal exactly when their ids are: one record exists per
    /// id, so the id is the identity.
    fn eq(&self, other: &Layer) -> (r: bool) {
        self.id == other.id
    }
}

impl vstd::std_specs::cmp::PartialEqSpecImpl for Layer {
    open spec fn obeys_eq_spec() -> bool {
        true
    }

    open spec fn eq_spec(&self, other: &Layer) -> bool {
        self.id == other.id
    }
}

/// One filled polygon, keyed to its layer record by layer id.
#[derive(Debug)]
pub struct Boundary {
    pub layer_id: u16,
    pub points: Vec<Point>,
}

/// The mathematical value of a boundary.
pub struct BoundaryV {
    pub layer_id: u16,
    pub points: Seq<Point>,
}

impl View for Boundary {
    type V = BoundaryV;

    open spec fn view(&self) -> BoundaryV {
        BoundaryV { layer_id: self.layer_id, points: self.points@ }
    }
}

/// One cell made ready for rendering.
#[derive(Debug)]
pub struct PreparedStruct {
    pub name: String,
    pub layers: Vec<Layer>,
    pub boundaries: Vec<Boundary>,
    pub extents: Extents,
}

impl PreparedStruct {
    pub fn get_name(&self) -> (r: String)
        ensures
            r@ == self.name@,
    {
        self.name.clone()
    }
}

pub open spec fn view_layers(s: Seq<Layer>) -> Seq<LayerV> {
    s.map_values(|l: Layer| l@)
}

pub open spec fn view_boundaries(s: Seq<Boundary>) -> Seq<BoundaryV> {
    s.map_values(|b: Boundary| b@)
}

// ---------------------------------------------------------------------------
// what prepare computes
// ---------------------------------------------------------------------------
/// A database-unit coordinate pair scaled into physical units.
pub open spec fn spec_point_of(unit: Rat, p: Xy) -> Point {
    Point {
        x: Rat { num: (p.x as int * unit.num as int) as i64, den: unit.den },
        y: Rat { num: (p.y as int * unit.num as int) as i64, den: unit.den },
    }
}

pub open spec fn spec_points_of(unit: Rat, s: Seq<Xy>) -> Seq<Point> {
    s.map_values(|p: Xy| spec_point_of(unit, p))
}

/// The distinct visible layer ids, in discovery order: every element that
/// passes the filter contributes its layer once, whatever its kind.
pub open spec fn spec_visible_ids(c: CtxV, elems: Seq<Elem>) -> Seq<u16>
    decreases elems.len(),
{
    if elems.len() == 0 {
        Seq::empty()
    } else {
        let pre = spec_visible_ids(c, elems.drop_last());
        let e = elems.last();
        if spec_layer_passes(c, e.layer) && !pre.contains(e.layer) {
            pre.push(e.layer)
        } else {
            pre
        }
    }
}

/// The one layer record a visible id resolves to.
pub open spec fn spec_make_layer(c: CtxV, id: u16) -> LayerV {
    LayerV { id, order: spec_layer_order(c, id), style: spec_resolve(c, id) }
}

/// The layer records of a cell, in discovery order.
pub open spec fn spec_layers_of(c: CtxV, elems: Seq<Elem>) -> Seq<LayerV> {
    spec_visible_ids(c, elems).map_values(|id: u16| spec_make_layer(c, id))
}

/// The boundaries of a cell, in element order: boundary-kind elements that
/// pass the filter, their coordinates scaled into physical units.
pub open spec fn spec_boundaries(c: CtxV, elems: Seq<Elem>) -> Seq<BoundaryV>
    decreases elems.len(),
{
    if elems.len() == 0 {
        Seq::empty()
    } else {
        let pre = spec_boundaries(c, elems.drop_last());
        let e = elems.last();
        if spec_layer_passes(c, e.layer) && e.kind == ElemKind::Boundary {
            pre.push(BoundaryV { layer_id: e.layer, points: spec_points_of(c.unit, e.xy@) })
        } else {
            pre
        }
    }
}

/// All boundary points, in order.
pub open spec fn spec_all_points(bs: Seq<BoundaryV>) -> Seq<Point>
    decreases bs.len(),
{
    if bs.len() == 0 {
        Seq::empty()
    } else {
        spec_all_points(bs.drop_last()) + bs.last().points
    }
}

/// The extents of everything visible: every boundary point folded in.
pub open spec fn spec_prep_extents(c: CtxV, elems: Seq<Elem>) -> Extents {
    spec_fold_points(spec_empty_extents(), spec_all_points(spec_boundaries(c, elems)))
}

// ---------------------------------------------------------------------------
// the stable sort
// ---------------------------------------------------------------------------
/// Inserts a layer after every element with an order at most its own, so
/// equal orders keep their left-to-right arrival order.
pub open spec fn spec_insert_layer(s: Seq<LayerV>, l: LayerV) -> Seq<LayerV>
    decreases s.len(),
{
    if s.len() == 0 {
        seq![l]
    } else if s.last().order <= l.order {
        s.push(l)
    } else {
        spec_insert_layer(s.drop_last(), l).push(s.last())
    }
}

/// Stable insertion sort by z-order: layers are inserted in discovery
/// order, each after all earlier-arrived layers of equal or lower order.
pub open spec fn spec_sort_layers(s: Seq<LayerV>) -> Seq<LayerV>
    decreases s.len(),
{
    if s.len() == 0 {
        Seq::empty()
    } else {
        spec_insert_layer(spec_sort_layers(s.drop_last()), s.last())
    }
}

/// Ascending by z-order.
pub open spec fn spec_sorted(s: Seq<LayerV>) -> bool {
    forall|i: int, j: int| 0 <= i < j < s.len() ==> s[i].order <= s[j].order
}

/// Inserting into a sorted sequence keeps it sorted, and brings in no
/// order beyond the inserted one and those already present.
pub proof fn lemma_insert_layer_sorted(s: Seq<LayerV>, l: LayerV)
    requires
        spec_sorted(s),
    ensures
        spec_sorted(spec_insert_layer(s, l)),
        forall|k: int|
            0 <= k < spec_insert_layer(s, l).len() ==> (#[trigger] spec_insert_layer(s, l)[k].order
                <= l.order || (exists|m: int|
                0 <= m < s.len() && spec_insert_layer(s, l)[k].order == s[m].order)),
    decreases s.len(),
{
    if s.len() == 0 {
    } else if s.last().order <= l.order {
    } else {
        assert(spec_sorted(s.drop_last()));
        lemma_insert_layer_sorted(s.drop_last(), l);
        let t = spec_insert_layer(s.drop_last(), l);
        assert forall|k: int| 0 <= k < t.len() implies t[k].order <= s.last().order by {
            if t[k].order <= l.order {
            } else {
                let m = choose|m: int| 0 <= m < s.drop_last().len() && t[k].order == s.drop_last()[m].order;
                assert(s.drop_last()[m] == s[m]);
            }
        }
    }
}

/// The sorted layer list is ascending by z-order: the fill and stroke
/// passes visit layers back-to-front whatever order they were discovered.
pub proof fn lemma_sort_layers_sorted(s: Seq<LayerV>)
    ensures
        spec_sorted(spec_sort_layers(s)),
    decreases s.len(),
{
    if s.len() > 0 {
        lemma_sort_layers_sorted(s.drop_last());
        lemma_insert_layer_sorted(spec_sort_layers(s.drop_last()), s.last());
    }
}

/// Inserting at the position found by a right-to-left scan is the same as
/// the recursive insertion.
proof fn lemma_insert_layer_at(s: Seq<LayerV>, l: LayerV, p: int)
    requires
        0 <= p <= s.len(),
        forall|j: int| p <= j < s.len() ==> (#[trigger] s[j]).order > l.order,
        p > 0 ==> s[p - 1].order <= l.order,
    ensures
        spec_insert_layer(s, l) == s.insert(p, l),
    decreases s.len(),
{
    if p == s.len() {
        if s.len() == 0 {
            assert(spec_insert_layer(s, l) =~= s.insert(p, l));
        } else {
            assert(s.last().order <= l.order);
            assert(s.push(l) =~= s.insert(p, l));
        }
    } else {
        assert(s[s.len() - 1].order > l.order);
        lemma_insert_layer_at(s.drop_last(), l, p);
        assert(spec_insert_layer(s.drop_last(), l).push(s.last()) =~= s.drop_last().insert(
            p,
            l,
        ).push(s.last()));
        assert(s.drop_last().insert(p, l).push(s.last()) =~= s.insert(p, l));
    }
}

/// Inserts a layer into the sorted list, after all entries of equal or
/// lower order.
fn insert_layer_sorted(v: &mut Vec<Layer>, l: Layer)
    ensures
        view_layers(final(v)@) == spec_insert_layer(view_layers(old(v)@), l@),
{
    let ghost lv = l@;
    let mut p: usize = v.len();
    while p > 0 && v[p - 1].order > l.order
        invariant
            0 <= p <= v.len(),
            v@ == old(v)@,
            lv == l@,
            forall|j: int| p <= j < v@.len() ==> (#[trigger] view_layers(v@)[j]).order > lv.order,
        decreases p,
    {
        p -= 1;
    }
    proof {
        lemma_insert_layer_at(view_layers(v@), lv, p as int);
    }
    let ghost orig = view_layers(v@);
    v.insert(p, l);
    proof {
        assert(view_layers(v@) =~= orig.insert(p as int, lv));
    }
}

// ---------------------------------------------------------------------------
// building the pieces
// ---------------------------------------------------------------------------
/// Whether the id is already among the seen ones.
fn contains_u16(v: &Vec<u16>, id: u16) -> (r: bool)
    ensures
        r == v@.contains(id),
{
    let mut i: usize = 0;
    while i < v.len()
        invariant
            0 <= i <= v.len(),
            forall|j: int| 0 <= j < i ==> v@[j] != id,
        decreases v.len() - i,
    {
        if v[i] == id {
            return true;
        }
        i += 1;
    }
    proof {
        assert(!v@.contains(id));
    }
    false
}

/// Scales a coordinate list into physical units.
fn scale_points(unit: Rat, xy: &Vec<Xy>) -> (r: Vec<Point>)
    requires
        unit.wf(),
        -0x8000_0000 <= unit.num <= 0x8000_0000,
    ensures
        r@ == spec_points_of(unit, xy@),
{
    let mut r: Vec<Point> = Vec::new();
    let mut i: usize = 0;
    proof {
        assert(r@ =~= spec_points_of(unit, xy@.take(0)));
    }
    while i < xy.len()
        invariant
            0 <= i <= xy.len(),
            unit.wf(),
            -0x8000_0000 <= unit.num <= 0x8000_0000,
            r@ == spec_points_of(unit, xy@.take(i as int)),
        decreases xy.len() - i,
    {
        let p: Xy = xy[i];
        proof {
            assert((p.x as int) * (unit.num as int) <= 0x4000_0000_0000_0000
                && (p.x as int) * (unit.num as int) >= -0x4000_0000_0000_0000) by (nonlinear_arith)
                requires
                    -0x8000_0000 <= p.x as int <= 0x8000_0000,
                    -0x8000_0000 <= unit.num as int <= 0x8000_0000,
            ;
            assert((p.y as int) * (unit.num as int) <= 0x4000_0000_0000_0000
                && (p.y as int) * (unit.num as int) >= -0x4000_0000_0000_0000) by (nonlinear_arith)
                requires
                    -0x8000_0000 <= p.y as int <= 0x8000_0000,
                    -0x8000_0000 <= unit.num as int <= 0x8000_0000,
            ;
        }
        let q = Point {
            x: Rat { num: (p.x as i64) * unit.num, den: unit.den },
            y: Rat { num: (p.y as i64) * unit.num, den: unit.den },
        };
        r.push(q);
        proof {
            assert(spec_points_of(unit, xy@.take(i + 1 as int)) =~= spec_points_of(
                unit,
                xy@.take(i as int),
            ).push(spec_point_of(unit, xy@[i as int])));
        }
        i += 1;
    }
    proof {
        assert(xy@.take(xy@.len() as int) =~= xy@);
    }
    r
}

/// Every point of every prepared boundary is a well-formed fraction.
pub proof fn lemma_boundaries_wf(c: CtxV, elems: Seq<Elem>)
    requires
        c.unit.wf(),
    ensures
        forall|b: int, k: int|
            0 <= b < spec_boundaries(c, elems).len() && 0 <= k < spec_boundaries(c, elems)[b]
                .points.len() ==> (#[trigger] spec_boundaries(c, elems)[b].points[k]).wf(),
    decreases elems.len(),
{
    if elems.len() > 0 {
        lemma_boundaries_wf(c, elems.drop_last());
        let bs = spec_boundaries(c, elems);
        let pre = spec_boundaries(c, elems.drop_last());
        let e = elems.last();
        assert forall|b: int, k: int|
            0 <= b < bs.len() && 0 <= k < bs[b].points.len() implies (
        #[trigger] bs[b].points[k]).wf() by {
            if b < pre.len() {
                assert(bs[b] == pre[b]);
                assert(pre[b].points[k].wf());
            } else {
                assert(bs[b].points[k] == spec_points_of(c.unit, e.xy@)[k]);
                assert(spec_points_of(c.unit, e.xy@)[k] == spec_point_of(c.unit, e.xy@[k]));
            }
        }
    }
}

/// Prepares one cell for rendering: filters, deduplicates and resolves its
/// layers, scales its boundaries, folds their extents, and sorts the layer
/// list stably ascending by z-order.
pub fn prepare(ctx: &Context, strukt: &Struct) -> (r: PreparedStruct)
    requires
        ctx.wf(),
    ensures
        r.name@ == strukt.name@,
        view_layers(r.layers@) == spec_sort_layers(spec_layers_of(ctx@, strukt.elems@)),
        view_boundaries(r.boundaries@) == spec_boundaries(ctx@, strukt.elems@),
        r.extents == spec_prep_extents(ctx@, strukt.elems@),
        r.extents.wf(),
        forall|b: int, k: int|
            0 <= b < r.boundaries@.len() && 0 <= k < r.boundaries@[b].points@.len() ==> (
            #[trigger] r.boundaries@[b].points@[k]).wf(),
{
    let ghost es = strukt.elems@;
    let mut seen: Vec<u16> = Vec::new();
    let mut layers: Vec<Layer> = Vec::new();
    let mut boundaries: Vec<Boundary> = Vec::new();
    let mut i: usize = 0;
    proof {
        assert(es.take(0) =~= Seq::<Elem>::empty());
        assert(view_layers(layers@) =~= spec_sort_layers(spec_layers_of(ctx@, es.take(0))));
        assert(view_boundaries(boundaries@) =~= spec_boundaries(ctx@, es.take(0)));
        assert(spec_visible_ids(ctx@, es.take(0)) =~= Seq::<u16>::empty());
    }
    while i < strukt.elems.len()
        invariant
            0 <= i <= strukt.elems@.len(),
            es == strukt.elems@,
            ctx.wf(),
            seen@ == spec_visible_ids(ctx@, es.take(i as int)),
            view_layers(layers@) == spec_sort_layers(spec_layers_of(ctx@, es.take(i as int))),
            view_boundaries(boundaries@) == spec_boundaries(ctx@, es.take(i as int)),
        decreases strukt.elems@.len() - i,
    {
        let e: &Elem = &strukt.elems[i];
        proof {
            assert(es.take(i + 1 as int).drop_last() =~= es.take(i as int));
            assert(es.take(i + 1 as int).last() == es[i as int]);
        }
        if ctx.layer_passes(e.layer) {
            if !contains_u16(&seen, e.layer) {
                seen.push(e.layer);
                let style: LayerClass = ctx.get_layer_style(e.layer);
                let ord: i32 = ctx.layer_order(e.layer);
                let l = Layer { id: e.layer, order: ord, style };
                proof {
                    assert(spec_layers_of(ctx@, es.take(i + 1 as int)) =~= spec_layers_of(
                        ctx@,
                        es.take(i as int),
                    ).push(spec_make_layer(ctx@, es[i as int].layer)));
                    assert(spec_layers_of(ctx@, es.take(i + 1 as int)).drop_last()
                        =~= spec_layers_of(ctx@, es.take(i as int)));
                }
                insert_layer_sorted(&mut layers, l);
            }
            match e.get_kind() {
                ElemKind::Boundary => {
                    let pts: Vec<Point> = scale_points(ctx.unit, &e.xy);
                    let b = Boundary { layer_id: e.layer, points: pts };
                    proof {
                        assert(view_boundaries(boundaries@.push(b)) =~= view_boundaries(
                            boundaries@,
                        ).push(b@));
                    }
                    boundaries.push(b);
                },
                _ => {},
            }
        }
        i += 1;
    }
    proof {
        assert(es.take(es.len() as int) =~= es);
    }
    let ghost bsv = view_boundaries(boundaries@);
    let mut extents: Extents = Extents::new();
    let mut bi: usize = 0;
    proof {
        assert(spec_all_points(bsv.take(0)) =~= Seq::<Point>::empty());
        lemma_boundaries_wf(ctx@, es);
    }
    while bi < boundaries.len()
        invariant
            0 <= bi <= boundaries@.len(),
            bsv == view_boundaries(boundaries@),
            bsv == spec_boundaries(ctx@, es),
            ctx.wf(),
            extents.wf(),
            forall|b: int, k: int|
                0 <= b < bsv.len() && 0 <= k < bsv[b].points.len() ==> (#[trigger] bsv[b].points[k]).wf(),
            extents == spec_fold_points(spec_empty_extents(), spec_all_points(bsv.take(bi as int))),
        decreases boundaries@.len() - bi,
    {
        let mut pj: usize = 0;
        let ghost base = spec_all_points(bsv.take(bi as int));
        proof {
            assert(base + bsv[bi as int].points.take(0) =~= base);
        }
        while pj < boundaries[bi].points.len()
            invariant
                0 <= bi < boundaries@.len(),
                0 <= pj <= boundaries@[bi as int].points@.len(),
                bsv == view_boundaries(boundaries@),
                base == spec_all_points(bsv.take(bi as int)),
                forall|b: int, k: int|
                    0 <= b < bsv.len() && 0 <= k < bsv[b].points.len() ==> (
                    #[trigger] bsv[b].points[k]).wf(),
                extents.wf(),
                extents == spec_fold_points(
                    spec_empty_extents(),
                    base + bsv[bi as int].points.take(pj as int),
                ),
            decreases boundaries@[bi as int].points@.len() - pj,
        {
            let p: Point = boundaries[bi].points[pj];
            proof {
                assert(p == bsv[bi as int].points[pj as int]);
                assert((base + bsv[bi as int].points.take(pj + 1 as int)).drop_last() =~= base
                    + bsv[bi as int].points.take(pj as int));
                assert((base + bsv[bi as int].points.take(pj + 1 as int)).last() == bsv[bi as int]
                    .points[pj as int]);
            }
            extents.add_point(&p);
            pj += 1;
        }
        proof {
            assert(base + bsv[bi as int].points.take(bsv[bi as int].points.len() as int) =~= base
                + bsv[bi as int].points);
            assert(bsv.take(bi + 1 as int).drop_last() =~= bsv.take(bi as int));
            assert(bsv.take(bi + 1 as int).last() == bsv[bi as int]);
        }
        bi += 1;
    }
    proof {
        assert(bsv.take(bsv.len() as int) =~= bsv);
        assert forall|b: int, k: int|
            0 <= b < boundaries@.len() && 0 <= k < boundaries@[b].points@.len() implies (
        #[trigger] boundaries@[b].points@[k]).wf() by {
            assert(bsv[b] == boundaries@[b]@);
            assert(bsv[b].points[k].wf());
        }
    }
    PreparedStruct { name: strukt.get_name(), layers, boundaries, extents }
}

} // verus!
