//! Preparing cells, deriving the layout, and the drawing plan.

use gdsplot::Error;
use gdsplot::color::ColorRgb;
use gdsplot::context::{Context, ScaleMode};
use gdsplot::gds::{Elem, ElemKind, Struct, Xy};
use gdsplot::geometry::{Extents, Point};
use gdsplot::loader::apply_line;
use gdsplot::plot::{compute_layout, plot};
use gdsplot::prepare::prepare;
use gdsplot::rat::Rat;
use gdsplot::render::RenderCmd;

fn fresh_ctx() -> Context {
    Context::new(Rat::from_int(1))
}

fn boundary(layer: u16, pts: &[(i32, i32)]) -> Elem {
    let xy: Vec<Xy> = pts.iter().map(|&(x, y)| Xy { x, y }).collect();
    Elem::new(ElemKind::Boundary, layer, 0, xy)
}

fn cell(name: &str, elems: Vec<Elem>) -> Struct {
    Struct { name: String::from(name), elems }
}

fn rect_extents(x0: i64, y0: i64, x1: i64, y1: i64) -> Extents {
    let mut e = Extents::new();
    e.add_point(&Point { x: Rat::from_int(x0), y: Rat::from_int(y0) });
    e.add_point(&Point { x: Rat::from_int(x1), y: Rat::from_int(y1) });
    e
}

#[test]
fn extents_cover_the_fed_points() {
    // {(0,0),(10,0),(10,5),(0,5)} on one layer: min (0,0), max (10,5).
    let ctx = fresh_ctx();
    let s = cell("top", vec![boundary(1, &[(0, 0), (10, 0), (10, 5), (0, 5)])]);
    let p = prepare(&ctx, &s);
    assert!(!p.extents.empty);
    assert_eq!(p.extents.rect.min.x, Rat { num: 0, den: 1 });
    assert_eq!(p.extents.rect.min.y, Rat { num: 0, den: 1 });
    assert_eq!(p.extents.rect.max.x, Rat { num: 10, den: 1 });
    assert_eq!(p.extents.rect.max.y, Rat { num: 5, den: 1 });
    assert_eq!(p.name, String::from("top"));
}

#[test]
fn no_boundaries_leave_extents_empty_and_refuse_the_plot() {
    let ctx = fresh_ctx();
    let s = cell("top", vec![Elem::new(ElemKind::Text, 1, 0, vec![])]);
    let p = prepare(&ctx, &s);
    assert!(p.extents.empty);
    assert_eq!(plot(&ctx, &p).err(), Some(Error::NoVisibleGeometry));
}

#[test]
fn layer_filter_excludes_everything_on_other_layers() {
    // With only_layers = {2}, an element on layer 3 contributes neither a
    // layer, nor a boundary, nor extents.
    let mut ctx = fresh_ctx();
    apply_line(&mut ctx, "only 2").unwrap();
    let s = cell("top", vec![boundary(3, &[(0, 0), (10, 0), (10, 5)])]);
    let p = prepare(&ctx, &s);
    assert!(p.layers.is_empty());
    assert!(p.boundaries.is_empty());
    assert!(p.extents.empty);
}

#[test]
fn layers_deduplicate_and_sort_by_order() {
    // Orders [5,1,3] in discovery order come out [1,3,5].
    let mut ctx = fresh_ctx();
    apply_line(&mut ctx, "order 10 5").unwrap();
    apply_line(&mut ctx, "order 11 1").unwrap();
    apply_line(&mut ctx, "order 12 3").unwrap();
    let s = cell(
        "top",
        vec![
            boundary(10, &[(0, 0), (1, 0), (1, 1)]),
            boundary(11, &[(0, 0), (1, 0), (1, 1)]),
            boundary(10, &[(2, 2), (3, 2), (3, 3)]),
            boundary(12, &[(0, 0), (1, 0), (1, 1)]),
        ],
    );
    let p = prepare(&ctx, &s);
    let orders: Vec<i32> = p.layers.iter().map(|l| l.order).collect();
    assert_eq!(orders, vec![1, 3, 5]);
    let ids: Vec<u16> = p.layers.iter().map(|l| l.id).collect();
    assert_eq!(ids, vec![11, 12, 10]);
    assert_eq!(p.boundaries.len(), 4);
}

#[test]
fn equal_orders_keep_discovery_order() {
    let mut ctx = fresh_ctx();
    apply_line(&mut ctx, "order 20 1").unwrap();
    apply_line(&mut ctx, "order 21 1").unwrap();
    let s = cell(
        "top",
        vec![boundary(21, &[(0, 0), (1, 0), (1, 1)]), boundary(20, &[(0, 0), (1, 0), (1, 1)])],
    );
    let p = prepare(&ctx, &s);
    let ids: Vec<u16> = p.layers.iter().map(|l| l.id).collect();
    assert_eq!(ids, vec![21, 20]);
}

#[test]
fn default_order_is_the_layer_id() {
    let ctx = fresh_ctx();
    let s = cell(
        "top",
        vec![boundary(9, &[(0, 0), (1, 0), (1, 1)]), boundary(4, &[(0, 0), (1, 0), (1, 1)])],
    );
    let p = prepare(&ctx, &s);
    let ids: Vec<u16> = p.layers.iter().map(|l| l.id).collect();
    assert_eq!(ids, vec![4, 9]);
}

#[test]
fn size_mode_preserves_aspect_ratio() {
    // phys (200,100) into a 100x100 box: factor min(0.5, 1.0) = 0.5,
    // canvas (100,50) before margin.
    let e = rect_extents(0, 0, 200, 100);
    let (t, w, h) = compute_layout(&e, &ScaleMode::Size(100, 100), 0).unwrap();
    assert_eq!((w, h), (100, 50));
    // The uniform scale is 100/200.
    assert_eq!(t.va.x, Rat { num: 100, den: 200 });
    assert_eq!(t.vb.y, Rat { num: -100, den: 200 });
}

#[test]
fn resolution_mode_rounds_the_scaled_size() {
    // phys (2,1) meters at 300 pixels per meter: canvas (600,300).
    let e = rect_extents(0, 0, 2, 1);
    let (_t, w, h) = compute_layout(&e, &ScaleMode::Resolution(Rat::from_int(300)), 0).unwrap();
    assert_eq!((w, h), (600, 300));
}

#[test]
fn margin_insets_both_axes() {
    let e = rect_extents(0, 0, 2, 1);
    let (t, w, h) = compute_layout(&e, &ScaleMode::Resolution(Rat::from_int(300)), 10).unwrap();
    assert_eq!((w, h), (620, 320));
    // The translation moves the anchored origin in by the margin.
    assert_eq!(t.vt.x, Rat { num: 10, den: 1 });
    // y: flip around the pre-margin height 300, plus the margin.
    assert_eq!(t.vt.y, Rat { num: 310, den: 1 });
}

#[test]
fn layout_refuses_bad_targets_and_flat_extents() {
    let e = rect_extents(0, 0, 2, 1);
    assert_eq!(compute_layout(&e, &ScaleMode::Size(0, 100), 0).err(), Some(Error::BadScaleTarget));
    assert_eq!(
        compute_layout(&e, &ScaleMode::Resolution(Rat::from_int(-300)), 0).err(),
        Some(Error::BadScaleTarget)
    );
    // A zero-height rectangle has no area to scale.
    let flat = rect_extents(0, 0, 2, 0);
    assert_eq!(
        compute_layout(&flat, &ScaleMode::Size(100, 100), 0).err(),
        Some(Error::NoVisibleGeometry)
    );
}

#[test]
fn layout_refuses_coordinates_beyond_machine_range() {
    let mut e = Extents::new();
    e.add_point(&Point { x: Rat { num: -1, den: 1 }, y: Rat::from_int(0) });
    e.add_point(&Point { x: Rat { num: i64::MAX, den: 1 }, y: Rat::from_int(1) });
    assert_eq!(compute_layout(&e, &ScaleMode::Size(100, 100), 0).err(), Some(Error::Overflow));
}

#[test]
fn plan_paints_background_then_fills_then_strokes() {
    let mut ctx = fresh_ctx();
    apply_line(&mut ctx, "bgcolor #101010").unwrap();
    apply_line(&mut ctx, "alias 1 a ca").unwrap();
    apply_line(&mut ctx, "fill ca color #ff0000 pattern solid").unwrap();
    apply_line(&mut ctx, "stroke ca color #00ff00 width 2").unwrap();
    apply_line(&mut ctx, "size 100 100").unwrap();
    let s = cell("top", vec![boundary(1, &[(0, 0), (10, 0), (10, 10), (0, 10)])]);
    let p = prepare(&ctx, &s);
    let plan = plot(&ctx, &p).unwrap();
    assert_eq!(plan.name, String::from("top"));
    assert_eq!((plan.width, plan.height), (100, 100));
    // Background first.
    assert_eq!(plan.cmds[0], RenderCmd::SetSourceRgb(ColorRgb { r: 0x10, g: 0x10, b: 0x10 }));
    assert_eq!(plan.cmds[1], RenderCmd::Paint);
    // Every Fill comes before every Stroke.
    let first_stroke = plan.cmds.iter().position(|c| matches!(c, RenderCmd::Stroke));
    let last_fill = plan.cmds.iter().rposition(|c| matches!(c, RenderCmd::Fill));
    assert!(last_fill.unwrap() < first_stroke.unwrap());
    // The path skips the boundary's first point and closes back to it.
    assert!(plan.cmds.iter().any(|c| matches!(c, RenderCmd::MoveTo(_))));
    assert!(plan.cmds.iter().any(|c| matches!(c, RenderCmd::ClosePath)));
}

#[test]
fn fill_pass_visits_layers_in_ascending_order() {
    // Layers with orders [5,1,3] fill in sequence [1,3,5], whatever the
    // discovery order.
    let mut ctx = fresh_ctx();
    apply_line(&mut ctx, "alias 10 a ca").unwrap();
    apply_line(&mut ctx, "alias 11 b cb").unwrap();
    apply_line(&mut ctx, "alias 12 c cc").unwrap();
    apply_line(&mut ctx, "fill ca color #0a0a0a pattern solid").unwrap();
    apply_line(&mut ctx, "fill cb color #0b0b0b pattern solid").unwrap();
    apply_line(&mut ctx, "fill cc color #0c0c0c pattern solid").unwrap();
    apply_line(&mut ctx, "order a 5").unwrap();
    apply_line(&mut ctx, "order b 1").unwrap();
    apply_line(&mut ctx, "order c 3").unwrap();
    let s = cell(
        "top",
        vec![
            boundary(10, &[(0, 0), (9, 0), (9, 9)]),
            boundary(11, &[(0, 0), (9, 0), (9, 9)]),
            boundary(12, &[(0, 0), (9, 0), (9, 9)]),
        ],
    );
    let p = prepare(&ctx, &s);
    let plan = plot(&ctx, &p).unwrap();
    let fill_colors: Vec<u8> = plan
        .cmds
        .iter()
        .filter_map(|c| match c {
            RenderCmd::SetSourceRgb(col) if col.r != 0 => Some(col.r),
            _ => None,
        })
        .collect();
    assert_eq!(fill_colors, vec![0x0b, 0x0c, 0x0a]);
}

#[test]
fn unit_factor_scales_database_coordinates() {
    // One database unit is 1/1000 of a meter here.
    let ctx = Context::new(Rat { num: 1, den: 1000 });
    let s = cell("top", vec![boundary(1, &[(0, 0), (2000, 0), (2000, 1000)])]);
    let p = prepare(&ctx, &s);
    assert_eq!(p.extents.rect.max.x, Rat { num: 2000, den: 1000 });
    let (_t, w, h) = compute_layout(&p.extents, &ScaleMode::Resolution(Rat::from_int(300)), 0)
        .unwrap();
    assert_eq!((w, h), (600, 300));
}

#[test]
fn dashes_and_width_reach_the_stroke_commands() {
    let mut ctx = fresh_ctx();
    apply_line(&mut ctx, "alias 1 a ca").unwrap();
    apply_line(&mut ctx, "stroke ca color #010203 alpha 0.5 width 2.5 dashes 4 1").unwrap();
    let s = cell("top", vec![boundary(1, &[(0, 0), (10, 0), (10, 10)])]);
    let p = prepare(&ctx, &s);
    let plan = plot(&ctx, &p).unwrap();
    assert!(plan.cmds.iter().any(|c| matches!(
        c,
        RenderCmd::SetDash(d) if *d == vec![Rat { num: 4, den: 1 }, Rat { num: 1, den: 1 }]
    )));
    assert!(plan.cmds.iter().any(|c| matches!(
        c,
        RenderCmd::SetLineWidth(w) if *w == Rat { num: 25, den: 10 }
    )));
    assert!(plan.cmds.iter().any(|c| matches!(c, RenderCmd::Save)));
    assert!(plan.cmds.iter().any(|c| matches!(c, RenderCmd::Restore)));
    // No fill style resolved, so no fill group was opened.
    assert!(!plan.cmds.iter().any(|c| matches!(c, RenderCmd::PushGroup)));
}
