//! A read-only model of the layout source.
//!
//! The external stream reader yields a library of named structs, each an
//! ordered list of elements; an element carries a kind tag, a layer id, a
//! datatype and a list of integer database-unit coordinates.  The model
//! holds exactly the plain values the pipeline reads; the code that fills
//! it from a stream lives outside the library.

use crate::rat::Rat;
use vstd::prelude::*;

verus! {

/// The kind tag of a layout element.  Only `Boundary` elements are
/// rendered; the others are carried but not drawn.
#[derive(Clone, Copy, Debug, PartialEq, Eq, Structural)]
pub enum ElemKind {
    Boundary,
    Path,
    Sref,
    Aref,
    Text,
    Node,
    Box,
}

/// One integer database-unit coordinate pair.
#[derive(Clone, Copy, Debug, PartialEq, Eq, Structural)]
pub struct Xy {
    pub x: i32,
    pub y: i32,
}

/// One layout element.
#[derive(Debug)]
pub struct Elem {
    pub kind: ElemKind,
    pub layer: u16,
    pub dtype: u16,
    pub xy: Vec<Xy>,
}

impl Elem {
    pub fn new(kind: ElemKind, layer: u16, dtype: u16, xy: Vec<Xy>) -> (r: Elem)
        ensures
            r.kind == kind,
            r.layer == layer,
            r.dtype == dtype,
            r.xy == xy,
    {
        Elem { kind, layer, dtype, xy }
    }

    pub fn get_kind(&self) -> (r: ElemKind)
        ensures
            r == self.kind,
    {
        self.kind
    }

    pub fn get_layer(&self) -> (r: u16)
        ensures
            r == self.layer,
    {
        self.layer
    }

    pub fn get_type(&self) -> (r: u16)
        ensures
            r == self.dtype,
    {
        self.dtype
    }

    pub fn get_xy(&self) -> (r: &Vec<Xy>)
        ensures
            r == &self.xy,
    {
        &self.xy
    }
}

/// One named cell of the layout.
#[derive(Debug)]
pub struct Struct {
    pub name: String,
    pub elems: Vec<Elem>,
}

impl Struct {
    pub fn get_name(&self) -> (r: String)
        ensures
            r@ == self.name@,
    {
        self.name.clone()
    }

    pub fn get_num_elems(&self) -> (r: usize)
        ensures
            r == self.elems@.len(),
    {
        self.elems.len()
    }

    pub fn get_elem(&self, idx: usize) -> (r: &Elem)
        requires
            idx < self.elems@.len(),
        ensures
            r == &self.elems@[idx as int],
    {
        &self.elems[idx]
    }
}

/// The first struct with this name, if any.
pub open spec fn spec_find_struct(ss: Seq<Struct>, name: Seq<char>) -> Option<int>
    decreases ss.len(),
{
    if ss.len() == 0 {
        None
    } else if ss[0].name@ == name {
        Some(0)
    } else {
        match spec_find_struct(ss.drop_first(), name) {
            Some(i) => Some(1 + i),
            None => None,
        }
    }
}

/// A whole layout library: its structs and its unit factors.
#[derive(Debug)]
pub struct Library {
    pub structs: Vec<Struct>,
    /// Database units per meter.
    pub unit_in_m: Rat,
    /// Database units per user unit.
    pub unit_in_uu: Rat,
}

impl Library {
    /// A fresh, empty library with unit factors of one.
    pub fn create() -> (r: Library)
        ensures
            r.structs@.len() == 0,
            r.unit_in_m@.is_int(1) && r.unit_in_m.wf(),
            r.unit_in_uu@.is_int(1) && r.unit_in_uu.wf(),
    {
        Library {
            structs: Vec::new(),
            unit_in_m: Rat::from_int(1),
            unit_in_uu: Rat::from_int(1),
        }
    }

    pub fn get_num_structs(&self) -> (r: usize)
        ensures
            r == self.structs@.len(),
    {
        self.structs.len()
    }

    pub fn get_struct(&self, idx: usize) -> (r: &Struct)
        requires
            idx < self.structs@.len(),
        ensures
            r == &self.structs@[idx as int],
    {
        &self.structs[idx]
    }

    /// An iterator over all structs in the library.
    pub fn structs(&self) -> (r: StructIter<'_>)
        ensures
            r.library == self,
            r.cur == 0,
            r.end == self.structs@.len(),
    {
        StructIter { library: self, cur: 0, end: self.structs.len() }
    }

    /// Finds the first struct with the given name; `None` when the library
    /// has no such struct.
    pub fn find_struct(&self, name: &str) -> (r: Option<&Struct>)
        ensures
            match r {
                Some(s) => {
                    &&& spec_find_struct(self.structs@, name@) is Some
                    &&& s == &self.structs@[spec_find_struct(self.structs@, name@)->0]
                },
                None => spec_find_struct(self.structs@, name@) is None,
            },
    {
        let mut i: usize = 0;
        while i < self.structs.len()
            invariant
                0 <= i <= self.structs@.len(),
                forall|j: int| 0 <= j < i ==> (#[trigger] self.structs@[j]).name@ != name@,
            decreases self.structs@.len() - i,
        {
            if crate::context::str_eq(self.structs[i].name.as_str(), name) {
                proof {
                    lemma_find_struct_skip(self.structs@, name@, i as int);
                }
                return Some(&self.structs[i]);
            }
            i += 1;
        }
        proof {
            lemma_find_struct_none(self.structs@, name@);
        }
        None
    }

    pub fn get_units_in_m(&self) -> (r: Rat)
        ensures
            r == self.unit_in_m,
    {
        self.unit_in_m
    }

    pub fn get_units_in_uu(&self) -> (r: Rat)
        ensures
            r == self.unit_in_uu,
    {
        self.unit_in_uu
    }
}

/// A match at `i` with no match before it is the first match.
proof fn lemma_find_struct_skip(ss: Seq<Struct>, name: Seq<char>, i: int)
    requires
        0 <= i < ss.len(),
        forall|j: int| 0 <= j < i ==> (#[trigger] ss[j]).name@ != name,
        ss[i].name@ == name,
    ensures
        spec_find_struct(ss, name) == Some(i),
    decreases i,
{
    if i > 0 {
        assert(forall|j: int| 0 <= j < i - 1 ==> ss.drop_first()[j] == #[trigger] ss[j + 1]);
        lemma_find_struct_skip(ss.drop_first(), name, i - 1);
    }
}

/// With no match anywhere there is no first match.
proof fn lemma_find_struct_none(ss: Seq<Struct>, name: Seq<char>)
    requires
        forall|j: int| 0 <= j < ss.len() ==> (#[trigger] ss[j]).name@ != name,
    ensures
        spec_find_struct(ss, name) is None,
    decreases ss.len(),
{
    if ss.len() > 0 {
        assert(forall|j: int|
            0 <= j < ss.len() - 1 ==> ss.drop_first()[j] == #[trigger] ss[j + 1]);
        lemma_find_struct_none(ss.drop_first(), name);
    }
}

/// Walks the structs of a library in order.
pub struct StructIter<'a> {
    pub library: &'a Library,
    pub cur: usize,
    pub end: usize,
}

impl<'a> StructIter<'a> {
    /// The next struct, or `None` when the walk is done.
    pub fn next(&mut self) -> (r: Option<&'a Struct>)
        requires
            old(self).end <= old(self).library.structs@.len(),
        ensures
            final(self).library == old(self).library,
            final(self).end == old(self).end,
            match r {
                Some(s) => old(self).cur < old(self).end && final(self).cur == old(self).cur + 1
                    && s == &old(self).library.structs@[old(self).cur as int],
                None => old(self).cur >= old(self).end && final(self).cur == old(self).cur,
            },
    {
        if self.cur < self.end {
            let s = &self.library.structs[self.cur];
            self.cur = self.cur + 1;
            Some(s)
        } else {
            None
        }
    }
}

} // verus!
