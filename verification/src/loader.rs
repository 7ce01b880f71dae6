//! The stylesheet loader.
//!
//! A rule sheet is a sequence of text lines.  Each non-empty, non-comment
//! line is one directive; its whitespace-separated tokens are dispatched
//! here and folded into the `Context`.  A malformed line is refused as a
//! whole: the context is only changed when the entire directive parsed.

use crate::Error;
use crate::color::{parse_color, spec_color_ok, spec_color_value};
use crate::context::{
    Context, CtxV, ScaleMode, spec_class_lookup, str_eq, view_aliases, view_assignments,
    view_classes,
};
use crate::rat::{Rat, RatV};
use crate::scan::{
    parse_i32, parse_rat, parse_u16, spec_dec_sizes, spec_parse_dec, spec_parse_i32,
    spec_parse_u16, spec_tokens, tokenize, views_of,
};
use crate::style::{
    ClassV, FillPattern, LayerClass, LayerClassSheet, SheetV, copy_class, copy_sheet,
    spec_empty_class,
};
use vstd::prelude::*;

verus! {

/// The exact machine fraction of a spec-level fraction that fits.
pub open spec fn rat_of(rv: RatV) -> Rat {
    Rat { num: rv.num as i64, den: rv.den as i64 }
}

// ---------------------------------------------------------------------------
// association-list inserts
// ---------------------------------------------------------------------------
/// The position of the first alias entry with this name, or the length.
pub open spec fn alias_pos(s: Seq<(Seq<char>, u16)>, name: Seq<char>) -> int
    decreases s.len(),
{
    if s.len() == 0 {
        0
    } else if s[0].0 == name {
        0
    } else {
        1 + alias_pos(s.drop_first(), name)
    }
}

proof fn lemma_alias_pos_at(s: Seq<(Seq<char>, u16)>, name: Seq<char>, k: int)
    requires
        0 <= k <= s.len(),
        forall|j: int| 0 <= j < k ==> (#[trigger] s[j]).0 != name,
        k < s.len() ==> s[k].0 == name,
    ensures
        alias_pos(s, name) == k,
    decreases s.len(),
{
    if s.len() > 0 && k > 0 {
        assert(forall|j: int| 0 <= j < k - 1 ==> s.drop_first()[j] == #[trigger] s[j + 1]);
        lemma_alias_pos_at(s.drop_first(), name, k - 1);
    }
}

/// Registering an alias: the first entry with this name is replaced, a new
/// name is appended.
pub open spec fn spec_alias_insert(s: Seq<(Seq<char>, u16)>, name: Seq<char>, id: u16) -> Seq<
    (Seq<char>, u16),
> {
    let p = alias_pos(s, name);
    if p < s.len() {
        s.update(p, (name, id))
    } else {
        s.push((name, id))
    }
}

fn alias_insert(v: &mut Vec<(String, u16)>, name: &str, id: u16)
    ensures
        view_aliases(final(v)@) == spec_alias_insert(view_aliases(old(v)@), name@, id),
{
    let mut i: usize = 0;
    while i < v.len()
        invariant
            0 <= i <= v.len(),
            v@ == old(v)@,
            forall|j: int| 0 <= j < i ==> (#[trigger] view_aliases(v@)[j]).0 != name@,
        decreases v.len() - i,
    {
        if str_eq(v[i].0.as_str(), name) {
            let ghost orig = view_aliases(v@);
            proof {
                lemma_alias_pos_at(orig, name@, i as int);
            }
            let _old_pair = v.remove(i);
            v.insert(i, (name.to_owned(), id));
            proof {
                assert(view_aliases(v@) =~= orig.update(i as int, (name@, id)));
            }
            return ;
        }
        i += 1;
    }
    proof {
        lemma_alias_pos_at(view_aliases(v@), name@, v@.len() as int);
    }
    let ghost orig = view_aliases(v@);
    v.push((name.to_owned(), id));
    proof {
        assert(view_aliases(v@) =~= orig.push((name@, id)));
    }
}

/// The position of the first class entry with this name, or the length.
pub open spec fn class_pos(s: Seq<(Seq<char>, ClassV)>, name: Seq<char>) -> int
    decreases s.len(),
{
    if s.len() == 0 {
        0
    } else if s[0].0 == name {
        0
    } else {
        1 + class_pos(s.drop_first(), name)
    }
}

proof fn lemma_class_pos_at(s: Seq<(Seq<char>, ClassV)>, name: Seq<char>, k: int)
    requires
        0 <= k <= s.len(),
        forall|j: int| 0 <= j < k ==> (#[trigger] s[j]).0 != name,
        k < s.len() ==> s[k].0 == name,
    ensures
        class_pos(s, name) == k,
    decreases s.len(),
{
    if s.len() > 0 && k > 0 {
        assert(forall|j: int| 0 <= j < k - 1 ==> s.drop_first()[j] == #[trigger] s[j + 1]);
        lemma_class_pos_at(s.drop_first(), name, k - 1);
    }
}

/// Storing a class under a name: the first entry with this name is
/// replaced, a new name is appended.
pub open spec fn spec_class_insert(
    s: Seq<(Seq<char>, ClassV)>,
    name: Seq<char>,
    cls: ClassV,
) -> Seq<(Seq<char>, ClassV)> {
    let p = class_pos(s, name);
    if p < s.len() {
        s.update(p, (name, cls))
    } else {
        s.push((name, cls))
    }
}

fn class_insert(v: &mut Vec<(String, LayerClass)>, name: &str, cls: LayerClass)
    ensures
        view_classes(final(v)@) == spec_class_insert(view_classes(old(v)@), name@, cls@),
{
    let ghost clsv = cls@;
    let mut i: usize = 0;
    while i < v.len()
        invariant
            0 <= i <= v.len(),
            v@ == old(v)@,
            clsv == cls@,
            forall|j: int| 0 <= j < i ==> (#[trigger] view_classes(v@)[j]).0 != name@,
        decreases v.len() - i,
    {
        if str_eq(v[i].0.as_str(), name) {
            let ghost orig = view_classes(v@);
            proof {
                lemma_class_pos_at(orig, name@, i as int);
            }
            let _old_pair = v.remove(i);
            v.insert(i, (name.to_owned(), cls));
            proof {
                assert(view_classes(v@) =~= orig.update(i as int, (name@, clsv)));
            }
            return ;
        }
        i += 1;
    }
    proof {
        lemma_class_pos_at(view_classes(v@), name@, v@.len() as int);
    }
    let ghost orig = view_classes(v@);
    v.push((name.to_owned(), cls));
    proof {
        assert(view_classes(v@) =~= orig.push((name@, clsv)));
    }
}

/// The position of the first z-order entry for this layer, or the length.
pub open spec fn order_pos(s: Seq<(u16, i32)>, id: u16) -> int
    decreases s.len(),
{
    if s.len() == 0 {
        0
    } else if s[0].0 == id {
        0
    } else {
        1 + order_pos(s.drop_first(), id)
    }
}

proof fn lemma_order_pos_at(s: Seq<(u16, i32)>, id: u16, k: int)
    requires
        0 <= k <= s.len(),
        forall|j: int| 0 <= j < k ==> (#[trigger] s[j]).0 != id,
        k < s.len() ==> s[k].0 == id,
    ensures
        order_pos(s, id) == k,
    decreases s.len(),
{
    if s.len() > 0 && k > 0 {
        assert(forall|j: int| 0 <= j < k - 1 ==> s.drop_first()[j] == #[trigger] s[j + 1]);
        lemma_order_pos_at(s.drop_first(), id, k - 1);
    }
}

/// Setting a layer's explicit z-order: the first entry for this layer is
/// replaced, a new layer is appended.
pub open spec fn spec_order_insert(s: Seq<(u16, i32)>, id: u16, val: i32) -> Seq<(u16, i32)> {
    let p = order_pos(s, id);
    if p < s.len() {
        s.update(p, (id, val))
    } else {
        s.push((id, val))
    }
}

fn order_insert(v: &mut Vec<(u16, i32)>, id: u16, val: i32)
    ensures
        final(v)@ == spec_order_insert(old(v)@, id, val),
{
    let mut i: usize = 0;
    while i < v.len()
        invariant
            0 <= i <= v.len(),
            v@ == old(v)@,
            forall|j: int| 0 <= j < i ==> (#[trigger] v@[j]).0 != id,
        decreases v.len() - i,
    {
        if v[i].0 == id {
            proof {
                lemma_order_pos_at(v@, id, i as int);
            }
            let _old_pair = v.remove(i);
            v.insert(i, (id, val));
            proof {
                assert(v@ =~= old(v)@.update(i as int, (id, val)));
            }
            return ;
        }
        i += 1;
    }
    proof {
        lemma_order_pos_at(v@, id, v@.len() as int);
    }
    v.push((id, val));
    proof {
        assert(v@ =~= old(v)@.push((id, val)));
    }
}

/// The position of the first assignment entry for this layer, or the length.
pub open spec fn asg_pos(s: Seq<(u16, Seq<Seq<char>>)>, id: u16) -> int
    decreases s.len(),
{
    if s.len() == 0 {
        0
    } else if s[0].0 == id {
        0
    } else {
        1 + asg_pos(s.drop_first(), id)
    }
}

proof fn lemma_asg_pos_at(s: Seq<(u16, Seq<Seq<char>>)>, id: u16, k: int)
    requires
        0 <= k <= s.len(),
        forall|j: int| 0 <= j < k ==> (#[trigger] s[j]).0 != id,
        k < s.len() ==> s[k].0 == id,
    ensures
        asg_pos(s, id) == k,
    decreases s.len(),
{
    if s.len() > 0 && k > 0 {
        assert(forall|j: int| 0 <= j < k - 1 ==> s.drop_first()[j] == #[trigger] s[j + 1]);
        lemma_asg_pos_at(s.drop_first(), id, k - 1);
    }
}

/// Appending one class name to a layer's assignment list, creating the
/// list when the layer has none yet.
pub open spec fn spec_assign_add(
    s: Seq<(u16, Seq<Seq<char>>)>,
    id: u16,
    name: Seq<char>,
) -> Seq<(u16, Seq<Seq<char>>)> {
    let p = asg_pos(s, id);
    if p < s.len() {
        s.update(p, (id, s[p].1.push(name)))
    } else {
        s.push((id, seq![name]))
    }
}

/// Appending several class names, in order.
pub open spec fn spec_assign_add_all(
    s: Seq<(u16, Seq<Seq<char>>)>,
    id: u16,
    names: Seq<Seq<char>>,
) -> Seq<(u16, Seq<Seq<char>>)>
    decreases names.len(),
{
    if names.len() == 0 {
        s
    } else {
        spec_assign_add_all(spec_assign_add(s, id, names[0]), id, names.drop_first())
    }
}

fn assign_add(v: &mut Vec<(u16, Vec<String>)>, id: u16, name: &str)
    ensures
        view_assignments(final(v)@) == spec_assign_add(view_assignments(old(v)@), id, name@),
{
    let mut i: usize = 0;
    while i < v.len()
        invariant
            0 <= i <= v.len(),
            v@ == old(v)@,
            forall|j: int| 0 <= j < i ==> (#[trigger] view_assignments(v@)[j]).0 != id,
        decreases v.len() - i,
    {
        if v[i].0 == id {
            let ghost orig = view_assignments(v@);
            proof {
                lemma_asg_pos_at(orig, id, i as int);
            }
            let mut pair = v.remove(i);
            pair.1.push(name.to_owned());
            proof {
                assert(views_of(pair.1@) =~= orig[i as int].1.push(name@));
            }
            v.insert(i, pair);
            proof {
                assert(view_assignments(v@) =~= orig.update(
                    i as int,
                    (id, orig[i as int].1.push(name@)),
                ));
            }
            return ;
        }
        i += 1;
    }
    proof {
        lemma_asg_pos_at(view_assignments(v@), id, v@.len() as int);
    }
    let ghost orig = view_assignments(v@);
    let mut names: Vec<String> = Vec::new();
    names.push(name.to_owned());
    proof {
        assert(views_of(names@) =~= seq![name@]);
    }
    v.push((id, names));
    proof {
        assert(view_assignments(v@) =~= orig.push((id, seq![name@])));
    }
}

/// Adding a layer to the filter set once.
pub open spec fn spec_only_insert(only: Seq<u16>, id: u16) -> Seq<u16> {
    if only.contains(id) {
        only
    } else {
        only.push(id)
    }
}

/// Adding several layers, in order.
pub open spec fn spec_only_insert_all(only: Seq<u16>, ids: Seq<u16>) -> Seq<u16>
    decreases ids.len(),
{
    if ids.len() == 0 {
        only
    } else {
        spec_only_insert_all(spec_only_insert(only, ids[0]), ids.drop_first())
    }
}

fn only_insert(v: &mut Vec<u16>, id: u16)
    ensures
        final(v)@ == spec_only_insert(old(v)@, id),
{
    let mut i: usize = 0;
    while i < v.len()
        invariant
            0 <= i <= v.len(),
            v@ == old(v)@,
            forall|j: int| 0 <= j < i ==> v@[j] != id,
        decreases v.len() - i,
    {
        if v[i] == id {
            proof {
                assert(v@.contains(id));
            }
            return ;
        }
        i += 1;
    }
    proof {
        assert(!v@.contains(id));
    }
    v.push(id);
}

// ---------------------------------------------------------------------------
// layer tokens
// ---------------------------------------------------------------------------
/// A layer token resolves through the alias table first and falls back to
/// an unsigned integer.
pub open spec fn spec_resolve_layer_tok(aliases: Seq<(Seq<char>, u16)>, t: Seq<char>) -> Option<
    u16,
> {
    match crate::context::spec_alias_lookup(aliases, t) {
        Some(v) => Some(v),
        None => spec_parse_u16(t),
    }
}

/// Resolves a layer token.
pub fn resolve_layer_tok(ctx: &Context, t: &str) -> (r: Option<u16>)
    ensures
        r == spec_resolve_layer_tok(ctx@.aliases, t@),
{
    match ctx.alias_lookup(t) {
        Some(v) => Some(v),
        None => parse_u16(t),
    }
}

/// Every layer token from `i` on resolves.
pub open spec fn spec_layers_ok(aliases: Seq<(Seq<char>, u16)>, ts: Seq<Seq<char>>, i: int) -> bool {
    forall|j: int| i <= j < ts.len() ==> spec_resolve_layer_tok(aliases, #[trigger] ts[j]) is Some
}

/// The layer ids the tokens from `i` on resolve to.
pub open spec fn spec_layer_ids(aliases: Seq<(Seq<char>, u16)>, ts: Seq<Seq<char>>, i: int) -> Seq<
    u16,
> {
    Seq::new((ts.len() - i) as nat, |k: int| spec_resolve_layer_tok(aliases, ts[i + k])->0)
}

// ---------------------------------------------------------------------------
// style attribute tokens
// ---------------------------------------------------------------------------
/// Every token from `i` on is a well-formed dash length.
pub open spec fn spec_dashes_ok(ts: Seq<Seq<char>>, i: int) -> bool {
    forall|j: int|
        i <= j < ts.len() ==> spec_parse_dec(#[trigger] ts[j]) is Some && spec_dec_sizes(ts[j])
}

/// The dash lengths the tokens from `i` on denote.
pub open spec fn spec_dash_vals(ts: Seq<Seq<char>>, i: int) -> Seq<Rat> {
    Seq::new((ts.len() - i) as nat, |k: int| rat_of(spec_parse_dec(ts[i + k])->0))
}

/// Applying attribute tokens to a sheet, left to right: each keyword takes
/// one value token, except `dashes`, which takes the rest of the line.
pub open spec fn spec_sheet_apply(sheet: SheetV, ts: Seq<Seq<char>>, i: int) -> Result<
    SheetV,
    Error,
>
    decreases ts.len() - i,
{
    if i >= ts.len() {
        Ok(sheet)
    } else {
        let a = ts[i];
        if a == "color"@ {
            if i + 1 >= ts.len() {
                Err(Error::MissingArgument)
            } else if !spec_color_ok(ts[i + 1]) {
                Err(Error::BadColor)
            } else {
                spec_sheet_apply(
                    SheetV { color: Some(spec_color_value(ts[i + 1])), ..sheet },
                    ts,
                    i + 2,
                )
            }
        } else if a == "alpha"@ {
            if i + 1 >= ts.len() {
                Err(Error::MissingArgument)
            } else if !(spec_parse_dec(ts[i + 1]) is Some && spec_dec_sizes(ts[i + 1])) {
                Err(Error::BadNumber)
            } else {
                spec_sheet_apply(
                    SheetV { alpha: Some(rat_of(spec_parse_dec(ts[i + 1])->0)), ..sheet },
                    ts,
                    i + 2,
                )
            }
        } else if a == "width"@ {
            if i + 1 >= ts.len() {
                Err(Error::MissingArgument)
            } else if !(spec_parse_dec(ts[i + 1]) is Some && spec_dec_sizes(ts[i + 1])) {
                Err(Error::BadNumber)
            } else {
                spec_sheet_apply(
                    SheetV { width: Some(rat_of(spec_parse_dec(ts[i + 1])->0)), ..sheet },
                    ts,
                    i + 2,
                )
            }
        } else if a == "pattern"@ {
            if i + 1 >= ts.len() {
                Err(Error::MissingArgument)
            } else if ts[i + 1] == "solid"@ {
                spec_sheet_apply(SheetV { pattern: Some(FillPattern::Solid), ..sheet }, ts, i + 2)
            } else {
                Err(Error::UnknownPattern)
            }
        } else if a == "dashes"@ {
            if spec_dashes_ok(ts, i + 1) {
                Ok(SheetV { dashes: Some(spec_dash_vals(ts, i + 1)), ..sheet })
            } else {
                Err(Error::BadNumber)
            }
        } else {
            Err(Error::UnknownAttribute)
        }
    }
}

/// Applies attribute tokens to a sheet.  On an error the sheet is spoiled
/// and the caller must discard it.
fn sheet_apply(sheet: &mut LayerClassSheet, toks: &Vec<String>, start: usize) -> (r: Result<
    (),
    Error,
>)
    ensures
        match r {
            Ok(_) => spec_sheet_apply(old(sheet)@, views_of(toks@), start as int) == Ok::<
                SheetV,
                Error,
            >(final(sheet)@),
            Err(e) => spec_sheet_apply(old(sheet)@, views_of(toks@), start as int) == Err::<
                SheetV,
                Error,
            >(e),
        },
{
    let ghost ts = views_of(toks@);
    let mut i: usize = start;
    while i < toks.len()
        invariant
            start <= i,
            ts == views_of(toks@),
            spec_sheet_apply(sheet@, ts, i as int) == spec_sheet_apply(
                old(sheet)@,
                ts,
                start as int,
            ),
        decreases toks.len() - i,
    {
        let a: &String = &toks[i];
        proof {
            assert(ts[i as int] == toks@[i as int]@);
            if i + 1 < toks@.len() {
                assert(ts[i + 1 as int] == toks@[i + 1 as int]@);
            }
        }
        if str_eq(a.as_str(), "color") {
            if i + 1 >= toks.len() {
                return Err(Error::MissingArgument);
            }
            match parse_color(toks[i + 1].as_str()) {
                Ok(c) => {
                    sheet.color = Some(c);
                },
                Err(e) => {
                    return Err(e);
                },
            }
            i += 2;
        } else if str_eq(a.as_str(), "alpha") {
            if i + 1 >= toks.len() {
                return Err(Error::MissingArgument);
            }
            match parse_rat(toks[i + 1].as_str()) {
                Ok(v) => {
                    sheet.alpha = Some(v);
                },
                Err(e) => {
                    return Err(e);
                },
            }
            i += 2;
        } else if str_eq(a.as_str(), "width") {
            if i + 1 >= toks.len() {
                return Err(Error::MissingArgument);
            }
            match parse_rat(toks[i + 1].as_str()) {
                Ok(v) => {
                    sheet.width = Some(v);
                },
                Err(e) => {
                    return Err(e);
                },
            }
            i += 2;
        } else if str_eq(a.as_str(), "pattern") {
            if i + 1 >= toks.len() {
                return Err(Error::MissingArgument);
            }
            if str_eq(toks[i + 1].as_str(), "solid") {
                sheet.pattern = Some(FillPattern::Solid);
            } else {
                return Err(Error::UnknownPattern);
            }
            i += 2;
        } else if str_eq(a.as_str(), "dashes") {
            let mut dv: Vec<Rat> = Vec::new();
            let mut j: usize = i + 1;
            while j < toks.len()
                invariant
                    i + 1 <= j <= toks.len(),
                    i < toks@.len(),
                    ts == views_of(toks@),
                    spec_sheet_apply(sheet@, ts, i as int) == spec_sheet_apply(
                        old(sheet)@,
                        ts,
                        start as int,
                    ),
                    ts[i as int] == "dashes"@,
                    ts[i as int] != "color"@,
                    ts[i as int] != "alpha"@,
                    ts[i as int] != "width"@,
                    ts[i as int] != "pattern"@,
                    forall|m: int|
                        i + 1 <= m < j ==> spec_parse_dec(#[trigger] ts[m]) is Some
                            && spec_dec_sizes(ts[m]),
                    dv@.len() == j - i - 1,
                    forall|k: int|
                        0 <= k < dv@.len() ==> #[trigger] dv@[k] == rat_of(
                            spec_parse_dec(ts[i + 1 + k])->0,
                        ),
                decreases toks.len() - j,
            {
                proof {
                    assert(ts[j as int] == toks@[j as int]@);
                }
                match parse_rat(toks[j].as_str()) {
                    Ok(v) => {
                        dv.push(v);
                    },
                    Err(e) => {
                        return Err(e);
                    },
                }
                j += 1;
            }
            proof {
                assert(dv@ =~= spec_dash_vals(ts, i + 1 as int));
            }
            sheet.dashes = Some(dv);
            return Ok(());
        } else {
            return Err(Error::UnknownAttribute);
        }
    }
    Ok(())
}

// ---------------------------------------------------------------------------
// directives
// ---------------------------------------------------------------------------
/// Which sheet of a class a directive addresses.
#[derive(Clone, Copy, Debug, PartialEq, Eq, Structural)]
pub enum SheetSel {
    General,
    Fill,
    Stroke,
}

/// The selected sheet of a class.
pub open spec fn spec_sel_sheet(c: ClassV, sel: SheetSel) -> SheetV {
    match sel {
        SheetSel::General => c.general,
        SheetSel::Fill => c.fill,
        SheetSel::Stroke => c.stroke,
    }
}

/// The class with the selected sheet replaced.
pub open spec fn spec_sel_store(c: ClassV, sel: SheetSel, sh: SheetV) -> ClassV {
    match sel {
        SheetSel::General => ClassV { general: sh, ..c },
        SheetSel::Fill => ClassV { fill: sh, ..c },
        SheetSel::Stroke => ClassV { stroke: sh, ..c },
    }
}

/// A `general`, `fill` or `stroke` directive: ensures the named class
/// exists, then applies the attribute tokens to the selected sheet.
pub open spec fn spec_dir_class(c: CtxV, ts: Seq<Seq<char>>, sel: SheetSel) -> Result<CtxV, Error> {
    if ts.len() < 2 {
        Err(Error::MissingArgument)
    } else {
        let name = ts[1];
        let base = match spec_class_lookup(c.classes, name) {
            Some(cl) => cl,
            None => spec_empty_class(),
        };
        match spec_sheet_apply(spec_sel_sheet(base, sel), ts, 2) {
            Ok(sh) => Ok(
                CtxV {
                    classes: spec_class_insert(c.classes, name, spec_sel_store(base, sel, sh)),
                    ..c
                },
            ),
            Err(e) => Err(e),
        }
    }
}

/// An `alias` directive: registers the alias and appends any trailing
/// class names to the layer's assignment list.
pub open spec fn spec_dir_alias(c: CtxV, ts: Seq<Seq<char>>) -> Result<CtxV, Error> {
    if ts.len() < 3 {
        Err(Error::MissingArgument)
    } else {
        match spec_parse_u16(ts[1]) {
            None => Err(Error::BadNumber),
            Some(id) => Ok(
                CtxV {
                    aliases: spec_alias_insert(c.aliases, ts[2], id),
                    assignments: spec_assign_add_all(c.assignments, id, ts.skip(3)),
                    ..c
                },
            ),
        }
    }
}

/// The whole effect of one directive line on the context.
pub open spec fn spec_apply_tokens(c: CtxV, ts: Seq<Seq<char>>) -> Result<CtxV, Error> {
    if ts.len() == 0 {
        Ok(c)
    } else {
        let h = ts[0];
        if h == "alias"@ {
            spec_dir_alias(c, ts)
        } else if h == "general"@ {
            spec_dir_class(c, ts, SheetSel::General)
        } else if h == "fill"@ {
            spec_dir_class(c, ts, SheetSel::Fill)
        } else if h == "stroke"@ {
            spec_dir_class(c, ts, SheetSel::Stroke)
        } else if h == "bgcolor"@ {
            if ts.len() < 2 {
                Err(Error::MissingArgument)
            } else if !spec_color_ok(ts[1]) {
                Err(Error::BadColor)
            } else {
                Ok(CtxV { bg_color: Some(spec_color_value(ts[1])), ..c })
            }
        } else if h == "only"@ {
            if spec_layers_ok(c.aliases, ts, 1) {
                Ok(
                    CtxV {
                        only_layers: spec_only_insert_all(
                            c.only_layers,
                            spec_layer_ids(c.aliases, ts, 1),
                        ),
                        ..c
                    },
                )
            } else {
                Err(Error::BadNumber)
            }
        } else if h == "order"@ {
            if ts.len() < 3 {
                Err(Error::MissingArgument)
            } else {
                match spec_resolve_layer_tok(c.aliases, ts[1]) {
                    None => Err(Error::BadNumber),
                    Some(id) => match spec_parse_i32(ts[2]) {
                        None => Err(Error::BadNumber),
                        Some(val) => Ok(CtxV { orders: spec_order_insert(c.orders, id, val), ..c }),
                    },
                }
            }
        } else if h == "resolution"@ {
            if ts.len() < 2 {
                Err(Error::MissingArgument)
            } else if !(spec_parse_dec(ts[1]) is Some && spec_dec_sizes(ts[1])) {
                Err(Error::BadNumber)
            } else {
                Ok(CtxV { scale: ScaleMode::Resolution(rat_of(spec_parse_dec(ts[1])->0)), ..c })
            }
        } else if h == "size"@ {
            if ts.len() < 3 {
                Err(Error::MissingArgument)
            } else {
                match (spec_parse_i32(ts[1]), spec_parse_i32(ts[2])) {
                    (Some(w), Some(hh)) => Ok(CtxV { scale: ScaleMode::Size(w, hh), ..c }),
                    _ => Err(Error::BadNumber),
                }
            }
        } else if h == "margin"@ {
            if ts.len() < 2 {
                Err(Error::MissingArgument)
            } else {
                match spec_parse_i32(ts[1]) {
                    None => Err(Error::BadNumber),
                    Some(m) => Ok(CtxV { margin: m, ..c }),
                }
            }
        } else {
            Err(Error::UnknownDirective)
        }
    }
}

/// The effect of one whole text line: its directive tokens applied.
pub open spec fn spec_apply_line(c: CtxV, line: Seq<char>) -> Result<CtxV, Error> {
    spec_apply_tokens(c, spec_tokens(line))
}

/// The effect of a whole rule sheet, line by line, stopping at the first
/// bad line.
pub open spec fn spec_apply_lines(c: CtxV, lines: Seq<Seq<char>>) -> Result<CtxV, Error>
    decreases lines.len(),
{
    if lines.len() == 0 {
        Ok(c)
    } else {
        match spec_apply_line(c, lines[0]) {
            Ok(c2) => spec_apply_lines(c2, lines.drop_first()),
            Err(e) => Err(e),
        }
    }
}

/// Applies one directive's tokens to the context.  A refused directive
/// leaves the context exactly as it was.
pub fn apply_tokens(ctx: &mut Context, toks: &Vec<String>) -> (r: Result<(), Error>)
    requires
        old(ctx).wf(),
    ensures
        final(ctx).wf(),
        match r {
            Ok(_) => spec_apply_tokens(old(ctx)@, views_of(toks@)) == Ok::<CtxV, Error>(
                final(ctx)@,
            ),
            Err(e) => spec_apply_tokens(old(ctx)@, views_of(toks@)) == Err::<CtxV, Error>(e)
                && final(ctx)@ == old(ctx)@,
        },
{
    let ghost ts = views_of(toks@);
    if toks.len() == 0 {
        return Ok(());
    }
    let head: &String = &toks[0];
    proof {
        assert(ts[0] == toks@[0]@);
        if 1 < toks@.len() {
            assert(ts[1] == toks@[1]@);
        }
        if 2 < toks@.len() {
            assert(ts[2] == toks@[2]@);
        }
    }
    if str_eq(head.as_str(), "alias") {
        if toks.len() < 3 {
            return Err(Error::MissingArgument);
        }
        let id: u16 = match parse_u16(toks[1].as_str()) {
            Some(v) => v,
            None => {
                return Err(Error::BadNumber);
            },
        };
        alias_insert(&mut ctx.aliases, toks[2].as_str(), id);
        let mut k: usize = 3;
        while k < toks.len()
            invariant
                3 <= k <= toks.len(),
                ts == views_of(toks@),
                ctx.wf(),
                ctx@.unit == old(ctx)@.unit,
                ctx@.scale == old(ctx)@.scale,
                ctx@.only_layers == old(ctx)@.only_layers,
                ctx@.classes == old(ctx)@.classes,
                ctx@.bg_color == old(ctx)@.bg_color,
                ctx@.orders == old(ctx)@.orders,
                ctx@.margin == old(ctx)@.margin,
                ctx@.aliases == spec_alias_insert(old(ctx)@.aliases, ts[2], id),
                spec_assign_add_all(ctx@.assignments, id, ts.skip(k as int))
                    == spec_assign_add_all(old(ctx)@.assignments, id, ts.skip(3)),
            decreases toks.len() - k,
        {
            proof {
                assert(ts[k as int] == toks@[k as int]@);
                assert(ts.skip(k as int)[0] == ts[k as int]);
                assert(ts.skip(k as int).drop_first() =~= ts.skip(k + 1 as int));
            }
            assign_add(&mut ctx.assignments, id, toks[k].as_str());
            k += 1;
        }
        proof {
            assert(ts.skip(toks@.len() as int).len() == 0);
        }
        Ok(())
    } else if str_eq(head.as_str(), "general") {
        dir_class(ctx, toks, SheetSel::General)
    } else if str_eq(head.as_str(), "fill") {
        dir_class(ctx, toks, SheetSel::Fill)
    } else if str_eq(head.as_str(), "stroke") {
        dir_class(ctx, toks, SheetSel::Stroke)
    } else if str_eq(head.as_str(), "bgcolor") {
        if toks.len() < 2 {
            return Err(Error::MissingArgument);
        }
        match parse_color(toks[1].as_str()) {
            Ok(c) => {
                ctx.bg_color = Some(c);
                Ok(())
            },
            Err(e) => Err(e),
        }
    } else if str_eq(head.as_str(), "only") {
        let mut ids: Vec<u16> = Vec::new();
        let mut k: usize = 1;
        while k < toks.len()
            invariant
                1 <= k <= toks.len(),
                0 < toks@.len(),
                ts == views_of(toks@),
                ctx@ == old(ctx)@,
                ctx.wf(),
                ts[0] == "only"@,
                ts[0] != "alias"@,
                ts[0] != "general"@,
                ts[0] != "fill"@,
                ts[0] != "stroke"@,
                ts[0] != "bgcolor"@,
                forall|j: int|
                    1 <= j < k ==> spec_resolve_layer_tok(ctx@.aliases, #[trigger] ts[j]) is Some,
                ids@.len() == k - 1,
                forall|m: int|
                    0 <= m < ids@.len() ==> #[trigger] ids@[m] == spec_resolve_layer_tok(
                        ctx@.aliases,
                        ts[1 + m],
                    )->0,
            decreases toks.len() - k,
        {
            proof {
                assert(ts[k as int] == toks@[k as int]@);
            }
            match resolve_layer_tok(ctx, toks[k].as_str()) {
                Some(id) => {
                    ids.push(id);
                },
                None => {
                    return Err(Error::BadNumber);
                },
            }
            k += 1;
        }
        proof {
            assert(ids@ =~= spec_layer_ids(ctx@.aliases, ts, 1));
        }
        let ghost only0 = ctx.only_layers@;
        let ghost idsv = ids@;
        let mut m: usize = 0;
        proof {
            assert(idsv.skip(0) =~= idsv);
        }
        while m < ids.len()
            invariant
                0 <= m <= ids.len(),
                idsv == ids@,
                ctx.wf(),
                ctx@.unit == old(ctx)@.unit,
                ctx@.scale == old(ctx)@.scale,
                ctx@.aliases == old(ctx)@.aliases,
                ctx@.assignments == old(ctx)@.assignments,
                ctx@.classes == old(ctx)@.classes,
                ctx@.bg_color == old(ctx)@.bg_color,
                ctx@.orders == old(ctx)@.orders,
                ctx@.margin == old(ctx)@.margin,
                only0 == old(ctx)@.only_layers,
                spec_only_insert_all(ctx.only_layers@, idsv.skip(m as int))
                    == spec_only_insert_all(only0, idsv),
            decreases ids.len() - m,
        {
            proof {
                assert(idsv.skip(m as int)[0] == idsv[m as int]);
                assert(idsv.skip(m as int).drop_first() =~= idsv.skip(m + 1 as int));
            }
            only_insert(&mut ctx.only_layers, ids[m]);
            m += 1;
        }
        proof {
            assert(idsv.skip(idsv.len() as int).len() == 0);
        }
        Ok(())
    } else if str_eq(head.as_str(), "order") {
        if toks.len() < 3 {
            return Err(Error::MissingArgument);
        }
        let id: u16 = match resolve_layer_tok(ctx, toks[1].as_str()) {
            Some(v) => v,
            None => {
                return Err(Error::BadNumber);
            },
        };
        let val: i32 = match parse_i32(toks[2].as_str()) {
            Some(v) => v,
            None => {
                return Err(Error::BadNumber);
            },
        };
        order_insert(&mut ctx.orders, id, val);
        Ok(())
    } else if str_eq(head.as_str(), "resolution") {
        if toks.len() < 2 {
            return Err(Error::MissingArgument);
        }
        match parse_rat(toks[1].as_str()) {
            Ok(v) => {
                ctx.scale = ScaleMode::Resolution(v);
                Ok(())
            },
            Err(e) => Err(e),
        }
    } else if str_eq(head.as_str(), "size") {
        if toks.len() < 3 {
            return Err(Error::MissingArgument);
        }
        match (parse_i32(toks[1].as_str()), parse_i32(toks[2].as_str())) {
            (Some(w), Some(hh)) => {
                ctx.scale = ScaleMode::Size(w, hh);
                Ok(())
            },
            _ => Err(Error::BadNumber),
        }
    } else if str_eq(head.as_str(), "margin") {
        if toks.len() < 2 {
            return Err(Error::MissingArgument);
        }
        match parse_i32(toks[1].as_str()) {
            Some(m) => {
                ctx.margin = m;
                Ok(())
            },
            None => Err(Error::BadNumber),
        }
    } else {
        Err(Error::UnknownDirective)
    }
}

/// Handles a `general`, `fill` or `stroke` directive.
fn dir_class(ctx: &mut Context, toks: &Vec<String>, sel: SheetSel) -> (r: Result<(), Error>)
    requires
        old(ctx).wf(),
    ensures
        final(ctx).wf(),
        match r {
            Ok(_) => spec_dir_class(old(ctx)@, views_of(toks@), sel) == Ok::<CtxV, Error>(
                final(ctx)@,
            ),
            Err(e) => spec_dir_class(old(ctx)@, views_of(toks@), sel) == Err::<CtxV, Error>(e)
                && final(ctx)@ == old(ctx)@,
        },
{
    if toks.len() < 2 {
        return Err(Error::MissingArgument);
    }
    let name: &String = &toks[1];
    let mut base: LayerClass = match ctx.find_class(name.as_str()) {
        Some(i) => copy_class(&ctx.classes[i].1),
        None => LayerClass::new(),
    };
    let mut sheet: LayerClassSheet = match sel {
        SheetSel::General => copy_sheet(&base.general),
        SheetSel::Fill => copy_sheet(&base.fill),
        SheetSel::Stroke => copy_sheet(&base.stroke),
    };
    match sheet_apply(&mut sheet, toks, 2) {
        Ok(_) => {
            match sel {
                SheetSel::General => {
                    base.general = sheet;
                },
                SheetSel::Fill => {
                    base.fill = sheet;
                },
                SheetSel::Stroke => {
                    base.stroke = sheet;
                },
            }
            class_insert(&mut ctx.classes, name.as_str(), base);
            Ok(())
        },
        Err(e) => Err(e),
    }
}

/// Applies one text line to the context.  A refused line reports its error
/// and leaves the context exactly as it was.
pub fn apply_line(ctx: &mut Context, line: &str) -> (r: Result<(), Error>)
    requires
        old(ctx).wf(),
    ensures
        final(ctx).wf(),
        match r {
            Ok(_) => spec_apply_line(old(ctx)@, line@) == Ok::<CtxV, Error>(final(ctx)@),
            Err(e) => spec_apply_line(old(ctx)@, line@) == Err::<CtxV, Error>(e) && final(ctx)@
                == old(ctx)@,
        },
{
    let toks: Vec<String> = tokenize(line);
    apply_tokens(ctx, &toks)
}

/// Loads a whole rule sheet, line by line.  On the first bad line the
/// loader stops and reports the line's position and error; the caller must
/// then discard the context, as directives before the bad line have
/// already been folded in.
pub fn load_stylesheet(ctx: &mut Context, lines: &Vec<String>) -> (r: Result<(), (usize, Error)>)
    requires
        old(ctx).wf(),
    ensures
        final(ctx).wf(),
        match r {
            Ok(_) => spec_apply_lines(old(ctx)@, views_of(lines@)) == Ok::<CtxV, Error>(
                final(ctx)@,
            ),
            Err(ie) => ie.0 < lines@.len() && spec_apply_lines(old(ctx)@, views_of(lines@))
                == Err::<CtxV, Error>(ie.1),
        },
{
    let ghost ls = views_of(lines@);
    let mut i: usize = 0;
    proof {
        assert(ls.skip(0) =~= ls);
    }
    while i < lines.len()
        invariant
            0 <= i <= lines.len(),
            ls == views_of(lines@),
            ctx.wf(),
            spec_apply_lines(ctx@, ls.skip(i as int)) == spec_apply_lines(old(ctx)@, ls),
        decreases lines.len() - i,
    {
        proof {
            assert(ls.skip(i as int)[0] == ls[i as int]);
            assert(ls.skip(i as int).drop_first() =~= ls.skip(i + 1 as int));
        }
        match apply_line(ctx, lines[i].as_str()) {
            Ok(_) => {},
            Err(e) => {
                return Err((i, e));
            },
        }
        i += 1;
    }
    proof {
        assert(ls.skip(lines@.len() as int).len() == 0);
    }
    Ok(())
}

} // verus!
