//! The stylesheet grammar: directives, attributes, literals, and the
//! cascading merge.

use gdsplot::Error;
use gdsplot::color::{ColorRgb, parse_color};
use gdsplot::context::{Context, ScaleMode};
use gdsplot::loader::{apply_line, load_stylesheet};
use gdsplot::rat::Rat;
use gdsplot::scan::{parse_i32, parse_rat, parse_u16};
use gdsplot::style::{LayerClass, LayerClassSheet};

fn fresh_ctx() -> Context {
    Context::new(Rat::from_int(1))
}

#[test]
fn color_parses_hex_channels() {
    assert_eq!(parse_color("#1a2b3c"), Ok(ColorRgb { r: 0x1a, g: 0x2b, b: 0x3c }));
    assert_eq!(parse_color("#FFffFF"), Ok(ColorRgb { r: 255, g: 255, b: 255 }));
    assert_eq!(parse_color("#000000"), Ok(ColorRgb { r: 0, g: 0, b: 0 }));
}

#[test]
fn color_rejects_malformed_literals() {
    assert_eq!(parse_color("1a2b3c"), Err(Error::BadColor));
    assert_eq!(parse_color("#1a2b3"), Err(Error::BadColor));
    assert_eq!(parse_color("#1a2b3cd"), Err(Error::BadColor));
    assert_eq!(parse_color(""), Err(Error::BadColor));
    assert_eq!(parse_color("#zzzzzz"), Err(Error::BadColor));
}

#[test]
fn integers_parse_exactly() {
    assert_eq!(parse_u16("0"), Some(0));
    assert_eq!(parse_u16("007"), Some(7));
    assert_eq!(parse_u16("65535"), Some(65535));
    assert_eq!(parse_u16("65536"), None);
    assert_eq!(parse_u16(""), None);
    assert_eq!(parse_u16("12a"), None);
    assert_eq!(parse_i32("-1"), Some(-1));
    assert_eq!(parse_i32("+42"), Some(42));
    assert_eq!(parse_i32("2147483647"), Some(2147483647));
    assert_eq!(parse_i32("-2147483648"), Some(-2147483648));
    assert_eq!(parse_i32("2147483648"), None);
    assert_eq!(parse_i32("-"), None);
}

#[test]
fn decimals_parse_to_exact_fractions() {
    assert_eq!(parse_rat("0.5"), Ok(Rat { num: 5, den: 10 }));
    assert_eq!(parse_rat("-1.25"), Ok(Rat { num: -125, den: 100 }));
    assert_eq!(parse_rat("300"), Ok(Rat { num: 300, den: 1 }));
    assert_eq!(parse_rat("2."), Ok(Rat { num: 2, den: 1 }));
    assert_eq!(parse_rat(".5"), Ok(Rat { num: 5, den: 10 }));
    assert_eq!(parse_rat("1e5"), Err(Error::BadNumber));
    assert_eq!(parse_rat("."), Err(Error::BadNumber));
    assert_eq!(parse_rat("1.2.3"), Err(Error::BadNumber));
}

#[test]
fn merge_later_class_wins_per_attribute() {
    // An attribute set only in A survives; one set in both takes B's value.
    let mut a = LayerClassSheet::new();
    a.color = Some(ColorRgb { r: 1, g: 2, b: 3 });
    a.alpha = Some(Rat { num: 1, den: 2 });
    let mut b = LayerClassSheet::new();
    b.alpha = Some(Rat { num: 3, den: 4 });
    a.merge(&b);
    assert_eq!(a.color, Some(ColorRgb { r: 1, g: 2, b: 3 }));
    assert_eq!(a.alpha, Some(Rat { num: 3, den: 4 }));
}

#[test]
fn resolve_folds_assigned_classes_in_order() {
    let mut ctx = fresh_ctx();
    apply_line(&mut ctx, "alias 7 metal1 base accent").unwrap();
    apply_line(&mut ctx, "general base color #111111 alpha 0.5").unwrap();
    apply_line(&mut ctx, "general accent color #222222").unwrap();
    let style: LayerClass = ctx.get_layer_style(7);
    // The later class overrides the color, the earlier alpha survives.
    assert_eq!(style.general.color, Some(ColorRgb { r: 0x22, g: 0x22, b: 0x22 }));
    assert_eq!(style.general.alpha, Some(Rat { num: 5, den: 10 }));
}

#[test]
fn fill_requires_color_and_pattern() {
    // color and alpha alone give no fill; adding width still gives no
    // fill; pattern is required specifically for fill.
    let mut ctx = fresh_ctx();
    apply_line(&mut ctx, "alias 1 m c").unwrap();
    apply_line(&mut ctx, "fill c color #ff0000 alpha 0.5").unwrap();
    assert!(ctx.get_layer_style(1).get_fill_style().is_none());
    apply_line(&mut ctx, "fill c width 2").unwrap();
    assert!(ctx.get_layer_style(1).get_fill_style().is_none());
    apply_line(&mut ctx, "fill c pattern solid").unwrap();
    let fs = ctx.get_layer_style(1).get_fill_style().unwrap();
    assert_eq!(fs.color, ColorRgb { r: 255, g: 0, b: 0 });
    assert_eq!(fs.alpha, Rat { num: 5, den: 10 });
}

#[test]
fn stroke_requires_color_and_width() {
    let mut ctx = fresh_ctx();
    apply_line(&mut ctx, "alias 1 m c").unwrap();
    apply_line(&mut ctx, "stroke c color #00ff00").unwrap();
    assert!(ctx.get_layer_style(1).get_stroke_style().is_none());
    apply_line(&mut ctx, "stroke c width 1.5").unwrap();
    let ss = ctx.get_layer_style(1).get_stroke_style().unwrap();
    assert_eq!(ss.color, ColorRgb { r: 0, g: 255, b: 0 });
    assert_eq!(ss.width, Rat { num: 15, den: 10 });
    assert_eq!(ss.alpha, Rat { num: 1, den: 1 });
}

#[test]
fn alias_resolves_in_later_directives() {
    // alias 7 metal1 then order metal1 -1 sets the order of layer 7.
    let mut ctx = fresh_ctx();
    apply_line(&mut ctx, "alias 7 metal1").unwrap();
    apply_line(&mut ctx, "order metal1 -1").unwrap();
    assert_eq!(ctx.aliases, vec![(String::from("metal1"), 7)]);
    assert_eq!(ctx.orders, vec![(7, -1)]);
    assert_eq!(ctx.layer_order(7), -1);
}

#[test]
fn only_collects_layers_once() {
    let mut ctx = fresh_ctx();
    apply_line(&mut ctx, "alias 7 metal1").unwrap();
    apply_line(&mut ctx, "only 2 metal1 2").unwrap();
    assert_eq!(ctx.only_layers, vec![2, 7]);
}

#[test]
fn scale_and_margin_directives() {
    let mut ctx = fresh_ctx();
    apply_line(&mut ctx, "size 1024 768").unwrap();
    assert_eq!(ctx.scale, ScaleMode::Size(1024, 768));
    apply_line(&mut ctx, "resolution 300").unwrap();
    assert_eq!(ctx.scale, ScaleMode::Resolution(Rat { num: 300, den: 1 }));
    apply_line(&mut ctx, "margin 16").unwrap();
    assert_eq!(ctx.margin, 16);
    apply_line(&mut ctx, "bgcolor #c0ffee").unwrap();
    assert_eq!(ctx.bg_color, Some(ColorRgb { r: 0xc0, g: 0xff, b: 0xee }));
}

#[test]
fn dashes_consume_the_rest_of_the_line() {
    let mut ctx = fresh_ctx();
    apply_line(&mut ctx, "stroke c color #000000 width 1 dashes 1 2 0.5").unwrap();
    let ss = ctx.get_layer_style(0).get_stroke_style();
    assert!(ss.is_none());
    apply_line(&mut ctx, "alias 3 m c").unwrap();
    let ss = ctx.get_layer_style(3).get_stroke_style().unwrap();
    assert_eq!(
        ss.dashes,
        Some(vec![Rat { num: 1, den: 1 }, Rat { num: 2, den: 1 }, Rat { num: 5, den: 10 }])
    );
}

#[test]
fn comments_and_blank_lines_are_ignored() {
    let mut ctx = fresh_ctx();
    apply_line(&mut ctx, "").unwrap();
    apply_line(&mut ctx, "   ").unwrap();
    apply_line(&mut ctx, "// just a comment").unwrap();
    apply_line(&mut ctx, "alias 7 metal1 // trailing words").unwrap();
    assert_eq!(ctx.aliases, vec![(String::from("metal1"), 7)]);
    assert!(ctx.assignments.is_empty());
}

#[test]
fn bad_lines_report_their_error_and_change_nothing() {
    let mut ctx = fresh_ctx();
    assert_eq!(apply_line(&mut ctx, "paint 7"), Err(Error::UnknownDirective));
    assert_eq!(apply_line(&mut ctx, "fill c colour #000000"), Err(Error::UnknownAttribute));
    assert_eq!(apply_line(&mut ctx, "fill c pattern stripes"), Err(Error::UnknownPattern));
    assert_eq!(apply_line(&mut ctx, "alias seven m"), Err(Error::BadNumber));
    assert_eq!(apply_line(&mut ctx, "bgcolor red"), Err(Error::BadColor));
    assert_eq!(apply_line(&mut ctx, "order"), Err(Error::MissingArgument));
    assert_eq!(apply_line(&mut ctx, "fill c alpha 1.2.3"), Err(Error::BadNumber));
    assert_eq!(apply_line(&mut ctx, "only 2 nolayer"), Err(Error::BadNumber));
    assert!(ctx.aliases.is_empty());
    assert!(ctx.classes.is_empty());
    assert!(ctx.only_layers.is_empty());
}

#[test]
fn load_stylesheet_stops_at_first_bad_line() {
    let mut ctx = fresh_ctx();
    let lines = vec![
        String::from("alias 7 metal1"),
        String::from("order metal1 -1"),
        String::from("nonsense"),
        String::from("alias 8 metal2"),
    ];
    let r = load_stylesheet(&mut ctx, &lines);
    assert_eq!(r, Err((2, Error::UnknownDirective)));
    assert_eq!(ctx.orders, vec![(7, -1)]);
    assert!(ctx.aliases.len() == 1);
}

#[test]
fn load_stylesheet_applies_every_line() {
    let mut ctx = fresh_ctx();
    let lines = vec![
        String::from("alias 7 metal1 m1"),
        String::from("fill m1 color #336699 pattern solid"),
        String::from("size 640 480"),
    ];
    load_stylesheet(&mut ctx, &lines).unwrap();
    let fs = ctx.get_layer_style(7).get_fill_style().unwrap();
    assert_eq!(fs.color, ColorRgb { r: 0x33, g: 0x66, b: 0x99 });
    assert_eq!(ctx.scale, ScaleMode::Size(640, 480));
}
