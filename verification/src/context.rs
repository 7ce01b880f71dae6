//! The process-scoped configuration and the per-layer style resolver.
//!
//! A `Context` is built once by folding stylesheet lines and is immutable
//! afterwards.  Symbol tables are association lists looked up by first
//! match; every insert updates the first matching entry in place, so keys
//! stay unique.

use crate::color::ColorRgb;
use crate::rat::Rat;
use crate::style::{ClassV, LayerClass, spec_class_merge, spec_empty_class};
use vstd::prelude::*;

verus! {

/// How the plot is scaled to pixels.
#[derive(Clone, Copy, Debug, PartialEq, Eq, Structural)]
pub enum ScaleMode {
    /// Enough pixels to reach the given pixels-per-meter.
    Resolution(Rat),
    /// A specific canvas size, aspect ratio preserved.
    Size(i32, i32),
}

/// The process-scoped configuration.
#[derive(Debug)]
pub struct Context {
    /// Conversion factor from integer database units to meters.
    pub unit: Rat,
    pub scale: ScaleMode,
    pub aliases: Vec<(String, u16)>,
    pub only_layers: Vec<u16>,
    pub assignments: Vec<(u16, Vec<String>)>,
    pub classes: Vec<(String, LayerClass)>,
    pub bg_color: Option<ColorRgb>,
    pub orders: Vec<(u16, i32)>,
    pub margin: i32,
}

/// The mathematical value of a context.
pub struct CtxV {
    pub unit: Rat,
    pub scale: ScaleMode,
    pub aliases: Seq<(Seq<char>, u16)>,
    pub only_layers: Seq<u16>,
    pub assignments: Seq<(u16, Seq<Seq<char>>)>,
    pub classes: Seq<(Seq<char>, ClassV)>,
    pub bg_color: Option<ColorRgb>,
    pub orders: Seq<(u16, i32)>,
    pub margin: i32,
}

/// The view of an alias table.
pub open spec fn view_aliases(s: Seq<(String, u16)>) -> Seq<(Seq<char>, u16)> {
    s.map_values(|p: (String, u16)| (p.0@, p.1))
}

/// The view of an assignment table.
pub open spec fn view_assignments(s: Seq<(u16, Vec<String>)>) -> Seq<(u16, Seq<Seq<char>>)> {
    s.map_values(|p: (u16, Vec<String>)| (p.0, crate::scan::views_of(p.1@)))
}

/// The view of a class table.
pub open spec fn view_classes(s: Seq<(String, LayerClass)>) -> Seq<(Seq<char>, ClassV)> {
    s.map_values(|p: (String, LayerClass)| (p.0@, p.1@))
}

impl View for Context {
    type V = CtxV;

    open spec fn view(&self) -> CtxV {
        CtxV {
            unit: self.unit,
            scale: self.scale,
            aliases: view_aliases(self.aliases@),
            only_layers: self.only_layers@,
            assignments: view_assignments(self.assignments@),
            classes: view_classes(self.classes@),
            bg_color: self.bg_color,
            orders: self.orders@,
            margin: self.margin,
        }
    }
}

/// The first alias entry with this name, if any.
pub open spec fn spec_alias_lookup(aliases: Seq<(Seq<char>, u16)>, name: Seq<char>) -> Option<u16>
    decreases aliases.len(),
{
    if aliases.len() == 0 {
        None
    } else if aliases[0].0 == name {
        Some(aliases[0].1)
    } else {
        spec_alias_lookup(aliases.drop_first(), name)
    }
}

/// The first assignment entry for this layer, if any.
pub open spec fn spec_assignment_lookup(asg: Seq<(u16, Seq<Seq<char>>)>, id: u16) -> Option<
    Seq<Seq<char>>,
>
    decreases asg.len(),
{
    if asg.len() == 0 {
        None
    } else if asg[0].0 == id {
        Some(asg[0].1)
    } else {
        spec_assignment_lookup(asg.drop_first(), id)
    }
}

/// The first class entry with this name, if any.
pub open spec fn spec_class_lookup(classes: Seq<(Seq<char>, ClassV)>, name: Seq<char>) -> Option<
    ClassV,
>
    decreases classes.len(),
{
    if classes.len() == 0 {
        None
    } else if classes[0].0 == name {
        Some(classes[0].1)
    } else {
        spec_class_lookup(classes.drop_first(), name)
    }
}

/// The first explicit z-order entry for this layer, if any.
pub open spec fn spec_order_lookup(orders: Seq<(u16, i32)>, id: u16) -> Option<i32>
    decreases orders.len(),
{
    if orders.len() == 0 {
        None
    } else if orders[0].0 == id {
        Some(orders[0].1)
    } else {
        spec_order_lookup(orders.drop_first(), id)
    }
}

/// Folds the named classes into `acc`, in list order; a name with no class
/// entry contributes nothing.
pub open spec fn spec_fold_classes(
    classes: Seq<(Seq<char>, ClassV)>,
    names: Seq<Seq<char>>,
    acc: ClassV,
) -> ClassV
    decreases names.len(),
{
    if names.len() == 0 {
        acc
    } else {
        let step = match spec_class_lookup(classes, names[0]) {
            Some(c) => spec_class_merge(acc, c),
            None => acc,
        };
        spec_fold_classes(classes, names.drop_first(), step)
    }
}

/// Resolving folds left to right: splitting an assignment list anywhere
/// gives the same style as folding the first part and then the second onto
/// its result.
pub proof fn lemma_fold_classes_append(
    classes: Seq<(Seq<char>, ClassV)>,
    names1: Seq<Seq<char>>,
    names2: Seq<Seq<char>>,
    acc: ClassV,
)
    ensures
        spec_fold_classes(classes, names1 + names2, acc) == spec_fold_classes(
            classes,
            names2,
            spec_fold_classes(classes, names1, acc),
        ),
    decreases names1.len(),
{
    if names1.len() == 0 {
        assert(names1 + names2 =~= names2);
    } else {
        let step = match spec_class_lookup(classes, names1[0]) {
            Some(c) => spec_class_merge(acc, c),
            None => acc,
        };
        assert((names1 + names2)[0] == names1[0]);
        assert((names1 + names2).drop_first() =~= names1.drop_first() + names2);
        lemma_fold_classes_append(classes, names1.drop_first(), names2, step);
    }
}

/// The effective style of a layer: every class assigned to it, merged in
/// assignment order onto the empty class.  A layer with no assignment
/// resolves to the empty class, on which nothing renders.
pub open spec fn spec_resolve(c: CtxV, id: u16) -> ClassV {
    match spec_assignment_lookup(c.assignments, id) {
        Some(names) => spec_fold_classes(c.classes, names, spec_empty_class()),
        None => spec_empty_class(),
    }
}

/// The z-order a layer renders at: its explicit override, or its own id.
pub open spec fn spec_layer_order(c: CtxV, id: u16) -> i32 {
    match spec_order_lookup(c.orders, id) {
        Some(v) => v,
        None => id as i32,
    }
}

/// Whether the layer filter lets a layer through: an empty filter admits
/// every layer.
pub open spec fn spec_layer_passes(c: CtxV, id: u16) -> bool {
    c.only_layers.len() == 0 || c.only_layers.contains(id)
}

/// Compares two string slices character by character.
pub fn str_eq(a: &str, b: &str) -> (r: bool)
    ensures
        r == (a@ == b@),
{
    let na: usize = a.unicode_len();
    let nb: usize = b.unicode_len();
    if na != nb {
        return false;
    }
    let mut i: usize = 0;
    while i < na
        invariant
            na == a@.len() && na == b@.len(),
            0 <= i <= na,
            forall|j: int| 0 <= j < i ==> a@[j] == b@[j],
        decreases na - i,
    {
        if a.get_char(i) != b.get_char(i) {
            return false;
        }
        i += 1;
    }
    proof {
        assert(a@ =~= b@);
    }
    true
}

impl Context {
    /// The unit factor is a sane fraction: positive denominator, numerator
    /// small enough that any 32-bit database coordinate scales exactly.
    /// A resolution scale holds a well-formed fraction.
    pub open spec fn wf(self) -> bool {
        &&& self.unit.wf()
        &&& -0x8000_0000 <= self.unit.num <= 0x8000_0000
        &&& match self.scale {
            ScaleMode::Resolution(ppm) => ppm.wf(),
            ScaleMode::Size(_, _) => true,
        }
    }

    /// A fresh context: fit-to-512x512 scale, no styles, no filter,
    /// no background, no margin.
    pub fn new(unit: Rat) -> (r: Context)
        requires
            unit.wf(),
            -0x8000_0000 <= unit.num <= 0x8000_0000,
        ensures
            r.wf(),
            r@.unit == unit,
            r@.scale == ScaleMode::Size(512, 512),
            r@.aliases.len() == 0,
            r@.only_layers.len() == 0,
            r@.assignments.len() == 0,
            r@.classes.len() == 0,
            r@.bg_color is None,
            r@.orders.len() == 0,
            r@.margin == 0,
    {
        Context {
            unit,
            scale: ScaleMode::Size(512, 512),
            aliases: Vec::new(),
            only_layers: Vec::new(),
            assignments: Vec::new(),
            classes: Vec::new(),
            bg_color: None,
            orders: Vec::new(),
            margin: 0,
        }
    }

    /// Looks a layer id up in the alias table.
    pub fn alias_lookup(&self, name: &str) -> (r: Option<u16>)
        ensures
            r == spec_alias_lookup(self@.aliases, name@),
    {
        let mut i: usize = 0;
        proof {
            assert(self@.aliases.skip(0) =~= self@.aliases);
        }
        while i < self.aliases.len()
            invariant
                0 <= i <= self.aliases.len(),
                spec_alias_lookup(self@.aliases, name@) == spec_alias_lookup(
                    self@.aliases.skip(i as int),
                    name@,
                ),
        decreases self.aliases.len() - i,
        {
            let pair = &self.aliases[i];
            if str_eq(pair.0.as_str(), name) {
                proof {
                    assert(self@.aliases.skip(i as int)[0] == self@.aliases[i as int]);
                }
                return Some(pair.1);
            }
            proof {
                assert(self@.aliases.skip(i as int).drop_first() =~= self@.aliases.skip(
                    i + 1 as int,
                ));
                assert(self@.aliases.skip(i as int)[0] == self@.aliases[i as int]);
            }
            i += 1;
        }
        proof {
            assert(self@.aliases.skip(self.aliases@.len() as int).len() == 0);
        }
        None
    }

    /// Resolves a layer's effective style by merging its assigned classes
    /// in order onto the empty class.
    pub fn get_layer_style(&self, layer_id: u16) -> (r: LayerClass)
        ensures
            r@ == spec_resolve(self@, layer_id),
    {
        let mut style = LayerClass::new();
        let asg_idx: Option<usize> = self.find_assignment(layer_id);
        match asg_idx {
            None => style,
            Some(ai) => {
                let ghost names: Seq<Seq<char>> = self@.assignments[ai as int].1;
                let mut j: usize = 0;
                proof {
                    assert(names.skip(0) =~= names);
                }
                while j < self.assignments[ai].1.len()
                    invariant
                        0 <= j <= self.assignments@[ai as int].1@.len(),
                        ai < self.assignments@.len(),
                        names == self@.assignments[ai as int].1,
                        names.len() == self.assignments@[ai as int].1@.len(),
                        spec_fold_classes(self@.classes, names.skip(j as int), style@)
                            == spec_fold_classes(self@.classes, names, spec_empty_class()),
                    decreases self.assignments@[ai as int].1@.len() - j,
                {
                    let name: &String = &self.assignments[ai].1[j];
                    proof {
                        assert(names.skip(j as int)[0] == names[j as int]);
                        assert(names[j as int] == self.assignments@[ai as int].1@[j as int]@);
                        assert(names.skip(j as int).drop_first() =~= names.skip(j + 1 as int));
                    }
                    let cls_idx: Option<usize> = self.find_class(name.as_str());
                    match cls_idx {
                        Some(ci) => {
                            style.merge(&self.classes[ci].1);
                        },
                        None => {},
                    }
                    j += 1;
                }
                proof {
                    assert(names.skip(names.len() as int).len() == 0);
                }
                style
            },
        }
    }

    /// The index of the first assignment entry for this layer.
    pub fn find_assignment(&self, id: u16) -> (r: Option<usize>)
        ensures
            match r {
                Some(i) => i < self.assignments@.len() && self.assignments@[i as int].0 == id
                    && spec_assignment_lookup(self@.assignments, id) == Some(
                    self@.assignments[i as int].1,
                ),
                None => spec_assignment_lookup(self@.assignments, id) is None,
            },
    {
        let mut i: usize = 0;
        proof {
            assert(self@.assignments.skip(0) =~= self@.assignments);
        }
        while i < self.assignments.len()
            invariant
                0 <= i <= self.assignments.len(),
                spec_assignment_lookup(self@.assignments, id) == spec_assignment_lookup(
                    self@.assignments.skip(i as int),
                    id,
                ),
            decreases self.assignments.len() - i,
        {
            proof {
                assert(self@.assignments.skip(i as int)[0] == self@.assignments[i as int]);
                assert(self@.assignments.skip(i as int).drop_first() =~= self@.assignments.skip(
                    i + 1 as int,
                ));
            }
            if self.assignments[i].0 == id {
                return Some(i);
            }
            i += 1;
        }
        proof {
            assert(self@.assignments.skip(self.assignments@.len() as int).len() == 0);
        }
        None
    }

    /// The index of the first class entry with this name.
    pub fn find_class(&self, name: &str) -> (r: Option<usize>)
        ensures
            match r {
                Some(i) => i < self.classes@.len() && self.classes@[i as int].0@ == name@
                    && spec_class_lookup(self@.classes, name@) == Some(self@.classes[i as int].1),
                None => spec_class_lookup(self@.classes, name@) is None,
            },
    {
        let mut i: usize = 0;
        proof {
            assert(self@.classes.skip(0) =~= self@.classes);
        }
        while i < self.classes.len()
            invariant
                0 <= i <= self.classes.len(),
                spec_class_lookup(self@.classes, name@) == spec_class_lookup(
                    self@.classes.skip(i as int),
                    name@,
                ),
            decreases self.classes.len() - i,
        {
            proof {
                assert(self@.classes.skip(i as int)[0] == self@.classes[i as int]);
                assert(self@.classes.skip(i as int).drop_first() =~= self@.classes.skip(
                    i + 1 as int,
                ));
            }
            if str_eq(self.classes[i].0.as_str(), name) {
                return Some(i);
            }
            i += 1;
        }
        proof {
            assert(self@.classes.skip(self.classes@.len() as int).len() == 0);
        }
        None
    }

    /// The index of the first explicit z-order entry for this layer.
    pub fn find_order(&self, id: u16) -> (r: Option<usize>)
        ensures
            match r {
                Some(i) => i < self.orders@.len() && self.orders@[i as int].0 == id
                    && spec_order_lookup(self@.orders, id) == Some(self@.orders[i as int].1),
                None => spec_order_lookup(self@.orders, id) is None,
            },
    {
        let mut i: usize = 0;
        proof {
            assert(self@.orders.skip(0) =~= self@.orders);
        }
        while i < self.orders.len()
            invariant
                0 <= i <= self.orders.len(),
                spec_order_lookup(self@.orders, id) == spec_order_lookup(
                    self@.orders.skip(i as int),
                    id,
                ),
            decreases self.orders.len() - i,
        {
            proof {
                assert(self@.orders.skip(i as int)[0] == self@.orders[i as int]);
                assert(self@.orders.skip(i as int).drop_first() =~= self@.orders.skip(
                    i + 1 as int,
                ));
            }
            if self.orders[i].0 == id {
                return Some(i);
            }
            i += 1;
        }
        proof {
            assert(self@.orders.skip(self.orders@.len() as int).len() == 0);
        }
        None
    }

    /// The z-order a layer renders at.
    pub fn layer_order(&self, id: u16) -> (r: i32)
        ensures
            r == spec_layer_order(self@, id),
    {
        match self.find_order(id) {
            Some(i) => self.orders[i].1,
            None => id as i32,
        }
    }

    /// Whether the layer filter lets this layer through.
    pub fn layer_passes(&self, id: u16) -> (r: bool)
        ensures
            r == spec_layer_passes(self@, id),
    {
        if self.only_layers.len() == 0 {
            return true;
        }
        let mut i: usize = 0;
        while i < self.only_layers.len()
            invariant
                0 <= i <= self.only_layers.len(),
                forall|j: int| 0 <= j < i ==> self.only_layers@[j] != id,
            decreases self.only_layers.len() - i,
        {
            if self.only_layers[i] == id {
                return true;
            }
            i += 1;
        }
        proof {
            assert(!self.only_layers@.contains(id));
        }
        false
    }
}

} // verus!
