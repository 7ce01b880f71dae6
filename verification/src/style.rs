//! Cascading style classes.
//!
//! A named class bundles three sheets of optional attributes: `general`,
//! `fill` and `stroke`.  Merging class B into class A keeps, per attribute,
//! B's value when B defines it and A's otherwise.  A layer's effective fill
//! or stroke style is the merge of `general` with the type-specific sheet;
//! it is drawable only when the required attributes came out set.

use crate::color::ColorRgb;
use crate::rat::Rat;
use vstd::prelude::*;

verus! {

/// How a polygon's interior is painted.
#[derive(Clone, Copy, Debug, PartialEq, Eq, Structural)]
pub enum FillPattern {
    Solid,
}

/// One sheet of optional style attributes; `None` means "unset, inherit
/// from further merge".
#[derive(Debug)]
pub struct LayerClassSheet {
    pub color: Option<ColorRgb>,
    pub alpha: Option<Rat>,
    pub width: Option<Rat>,
    pub pattern: Option<FillPattern>,
    pub dashes: Option<Vec<Rat>>,
}

/// The mathematical value of a sheet.
pub struct SheetV {
    pub color: Option<ColorRgb>,
    pub alpha: Option<Rat>,
    pub width: Option<Rat>,
    pub pattern: Option<FillPattern>,
    pub dashes: Option<Seq<Rat>>,
}

impl View for LayerClassSheet {
    type V = SheetV;

    open spec fn view(&self) -> SheetV {
        SheetV {
            color: self.color,
            alpha: self.alpha,
            width: self.width,
            pattern: self.pattern,
            dashes: match self.dashes {
                Some(d) => Some(d@),
                None => None,
            },
        }
    }
}

/// The sheet with every attribute unset.
pub open spec fn spec_empty_sheet() -> SheetV {
    SheetV { color: None, alpha: None, width: None, pattern: None, dashes: None }
}

/// Merging `b` into `a`: per attribute, `b`'s value wins when set,
/// otherwise `a`'s value is kept.
pub open spec fn spec_sheet_merge(a: SheetV, b: SheetV) -> SheetV {
    SheetV {
        color: if b.color is Some {
            b.color
        } else {
            a.color
        },
        alpha: if b.alpha is Some {
            b.alpha
        } else {
            a.alpha
        },
        width: if b.width is Some {
            b.width
        } else {
            a.width
        },
        pattern: if b.pattern is Some {
            b.pattern
        } else {
            a.pattern
        },
        dashes: if b.dashes is Some {
            b.dashes
        } else {
            a.dashes
        },
    }
}

/// Merge precedence: an attribute set in the later sheet wins; one set only
/// in the earlier sheet survives the merge.
pub proof fn lemma_merge_precedence(a: SheetV, b: SheetV)
    ensures
        b.color is Some ==> spec_sheet_merge(a, b).color == b.color,
        b.color is None ==> spec_sheet_merge(a, b).color == a.color,
        b.alpha is Some ==> spec_sheet_merge(a, b).alpha == b.alpha,
        b.alpha is None ==> spec_sheet_merge(a, b).alpha == a.alpha,
        b.width is Some ==> spec_sheet_merge(a, b).width == b.width,
        b.width is None ==> spec_sheet_merge(a, b).width == a.width,
        b.pattern is Some ==> spec_sheet_merge(a, b).pattern == b.pattern,
        b.pattern is None ==> spec_sheet_merge(a, b).pattern == a.pattern,
        b.dashes is Some ==> spec_sheet_merge(a, b).dashes == b.dashes,
        b.dashes is None ==> spec_sheet_merge(a, b).dashes == a.dashes,
{
}

/// Merging is associative, so resolving a layer's assignment list
/// left-to-right folds to the same style however it is bracketed.
pub proof fn lemma_sheet_merge_assoc(a: SheetV, b: SheetV, c: SheetV)
    ensures
        spec_sheet_merge(spec_sheet_merge(a, b), c) == spec_sheet_merge(
            a,
            spec_sheet_merge(b, c),
        ),
{
}

/// Class merging is associative, sheet by sheet.
pub proof fn lemma_class_merge_assoc(a: ClassV, b: ClassV, c: ClassV)
    ensures
        spec_class_merge(spec_class_merge(a, b), c) == spec_class_merge(
            a,
            spec_class_merge(b, c),
        ),
{
    lemma_sheet_merge_assoc(a.general, b.general, c.general);
    lemma_sheet_merge_assoc(a.fill, b.fill, c.fill);
    lemma_sheet_merge_assoc(a.stroke, b.stroke, c.stroke);
}

/// Copies a dash list.
fn copy_rat_vec(v: &Vec<Rat>) -> (r: Vec<Rat>)
    ensures
        r@ == v@,
{
    let mut r: Vec<Rat> = Vec::new();
    let mut i: usize = 0;
    while i < v.len()
        invariant
            i <= v.len(),
            r@ == v@.take(i as int),
        decreases v.len() - i,
    {
        r.push(v[i]);
        proof {
            assert(v@.take(i + 1 as int) =~= v@.take(i as int).push(v@[i as int]));
        }
        i += 1;
    }
    proof {
        assert(v@.take(v@.len() as int) =~= v@);
    }
    r
}

/// Copies an optional dash list.
fn copy_dashes(v: &Option<Vec<Rat>>) -> (r: Option<Vec<Rat>>)
    ensures
        match r {
            Some(d) => v is Some && d@ == v->0@,
            None => v is None,
        },
{
    match v {
        Some(d) => Some(copy_rat_vec(d)),
        None => None,
    }
}

/// Copies a sheet.
pub fn copy_sheet(a: &LayerClassSheet) -> (r: LayerClassSheet)
    ensures
        r@ == a@,
{
    LayerClassSheet {
        color: a.color,
        alpha: a.alpha,
        width: a.width,
        pattern: a.pattern,
        dashes: copy_dashes(&a.dashes),
    }
}

/// Copies a class.
pub fn copy_class(a: &LayerClass) -> (r: LayerClass)
    ensures
        r@ == a@,
{
    LayerClass {
        general: copy_sheet(&a.general),
        fill: copy_sheet(&a.fill),
        stroke: copy_sheet(&a.stroke),
    }
}

impl LayerClassSheet {
    pub fn new() -> (r: LayerClassSheet)
        ensures
            r@ == spec_empty_sheet(),
    {
        LayerClassSheet { color: None, alpha: None, width: None, pattern: None, dashes: None }
    }

    /// Merges `other` into `self`: attributes set in `other` win.
    pub fn merge(&mut self, other: &LayerClassSheet)
        ensures
            final(self)@ == spec_sheet_merge(old(self)@, other@),
    {
        if other.color.is_some() {
            self.color = other.color;
        }
        if other.alpha.is_some() {
            self.alpha = other.alpha;
        }
        if other.width.is_some() {
            self.width = other.width;
        }
        if other.pattern.is_some() {
            self.pattern = other.pattern;
        }
        if other.dashes.is_some() {
            self.dashes = copy_dashes(&other.dashes);
        }
    }
}

/// A named, reusable style class: three sheets merged independently.
#[derive(Debug)]
pub struct LayerClass {
    pub general: LayerClassSheet,
    pub fill: LayerClassSheet,
    pub stroke: LayerClassSheet,
}

/// The mathematical value of a class.
pub struct ClassV {
    pub general: SheetV,
    pub fill: SheetV,
    pub stroke: SheetV,
}

impl View for LayerClass {
    type V = ClassV;

    open spec fn view(&self) -> ClassV {
        ClassV { general: self.general@, fill: self.fill@, stroke: self.stroke@ }
    }
}

/// The class with every attribute of every sheet unset.
pub open spec fn spec_empty_class() -> ClassV {
    ClassV {
        general: spec_empty_sheet(),
        fill: spec_empty_sheet(),
        stroke: spec_empty_sheet(),
    }
}

/// Merging classes merges the three sheets independently.
pub open spec fn spec_class_merge(a: ClassV, b: ClassV) -> ClassV {
    ClassV {
        general: spec_sheet_merge(a.general, b.general),
        fill: spec_sheet_merge(a.fill, b.fill),
        stroke: spec_sheet_merge(a.stroke, b.stroke),
    }
}

/// A drawable fill style: all required attributes resolved.
#[derive(Clone, Copy, Debug, PartialEq, Eq, Structural)]
pub struct FillStyle {
    pub color: ColorRgb,
    pub alpha: Rat,
    pub pattern: FillPattern,
}

/// A drawable stroke style: all required attributes resolved.
#[derive(Debug)]
pub struct StrokeStyle {
    pub color: ColorRgb,
    pub alpha: Rat,
    pub width: Rat,
    pub dashes: Option<Vec<Rat>>,
}

/// The mathematical value of a stroke style.
pub struct StrokeStyleV {
    pub color: ColorRgb,
    pub alpha: Rat,
    pub width: Rat,
    pub dashes: Option<Seq<Rat>>,
}

impl View for StrokeStyle {
    type V = StrokeStyleV;

    open spec fn view(&self) -> StrokeStyleV {
        StrokeStyleV {
            color: self.color,
            alpha: self.alpha,
            width: self.width,
            dashes: match self.dashes {
                Some(d) => Some(d@),
                None => None,
            },
        }
    }
}

/// The unit alpha used when a drawable style leaves `alpha` unset.
pub open spec fn spec_default_alpha() -> Rat {
    Rat { num: 1, den: 1 }
}

/// The fill style a class yields: `general` merged with `fill`, drawable
/// only when both `color` and `pattern` came out set.
pub open spec fn spec_fill_style(c: ClassV) -> Option<FillStyle> {
    let m = spec_sheet_merge(c.general, c.fill);
    match (m.color, m.pattern) {
        (Some(col), Some(pat)) => Some(
            FillStyle {
                color: col,
                alpha: match m.alpha {
                    Some(a) => a,
                    None => spec_default_alpha(),
                },
                pattern: pat,
            },
        ),
        _ => None,
    }
}

/// The stroke style a class yields: `general` merged with `stroke`,
/// drawable only when both `color` and `width` came out set.
pub open spec fn spec_stroke_style(c: ClassV) -> Option<StrokeStyleV> {
    let m = spec_sheet_merge(c.general, c.stroke);
    match (m.color, m.width) {
        (Some(col), Some(w)) => Some(
            StrokeStyleV {
                color: col,
                alpha: match m.alpha {
                    Some(a) => a,
                    None => spec_default_alpha(),
                },
                width: w,
                dashes: m.dashes,
            },
        ),
        _ => None,
    }
}

/// Builds the merge of two sheets as a fresh sheet.
fn merged_sheet(a: &LayerClassSheet, b: &LayerClassSheet) -> (r: LayerClassSheet)
    ensures
        r@ == spec_sheet_merge(a@, b@),
{
    LayerClassSheet {
        color: if b.color.is_some() {
            b.color
        } else {
            a.color
        },
        alpha: if b.alpha.is_some() {
            b.alpha
        } else {
            a.alpha
        },
        width: if b.width.is_some() {
            b.width
        } else {
            a.width
        },
        pattern: if b.pattern.is_some() {
            b.pattern
        } else {
            a.pattern
        },
        dashes: if b.dashes.is_some() {
            copy_dashes(&b.dashes)
        } else {
            copy_dashes(&a.dashes)
        },
    }
}

impl LayerClass {
    pub fn new() -> (r: LayerClass)
        ensures
            r@ == spec_empty_class(),
    {
        LayerClass {
            general: LayerClassSheet::new(),
            fill: LayerClassSheet::new(),
            stroke: LayerClassSheet::new(),
        }
    }

    /// Merges `other` into `self`, sheet by sheet.
    pub fn merge(&mut self, other: &LayerClass)
        ensures
            final(self)@ == spec_class_merge(old(self)@, other@),
    {
        self.general.merge(&other.general);
        self.fill.merge(&other.fill);
        self.stroke.merge(&other.stroke);
    }

    /// The effective fill style, or `None` when the fill pass must skip the
    /// layer.  A class that sets `color` and `alpha` but no `pattern` yields
    /// no fill style, even when `width` is also set: `pattern` is required
    /// specifically for fill.
    pub fn get_fill_style(&self) -> (r: Option<FillStyle>)
        ensures
            r == spec_fill_style(self@),
    {
        let m = merged_sheet(&self.general, &self.fill);
        match (m.color, m.pattern) {
            (Some(col), Some(pat)) => Some(
                FillStyle {
                    color: col,
                    alpha: match m.alpha {
                        Some(a) => a,
                        None => Rat::from_int(1),
                    },
                    pattern: pat,
                },
            ),
            _ => None,
        }
    }

    /// The effective stroke style, or `None` when the stroke pass must skip
    /// the layer: `color` and `width` are both required.
    pub fn get_stroke_style(&self) -> (r: Option<StrokeStyle>)
        ensures
            match r {
                Some(ss) => spec_stroke_style(self@) == Some(ss@),
                None => spec_stroke_style(self@) is None,
            },
    {
        let m = merged_sheet(&self.general, &self.stroke);
        match (m.color, m.width) {
            (Some(col), Some(w)) => Some(
                StrokeStyle {
                    color: col,
                    alpha: match m.alpha {
                        Some(a) => a,
                        None => Rat::from_int(1),
                    },
                    width: w,
                    dashes: copy_dashes(&m.dashes),
                },
            ),
            _ => None,
        }
    }
}

} // verus!
