//! The layout-source model and the exact fraction type.

use gdsplot::gds::{Elem, ElemKind, Library, Struct, Xy};
use gdsplot::rat::Rat;

#[test]
fn it_works() {
}

#[test]
fn library_finds_structs_by_name() {
    let mut lib = Library::create();
    assert_eq!(lib.get_num_structs(), 0);
    lib.structs.push(Struct { name: String::from("alpha"), elems: vec![] });
    lib.structs.push(Struct { name: String::from("beta"), elems: vec![] });
    assert_eq!(lib.get_num_structs(), 2);
    assert_eq!(lib.find_struct("beta").unwrap().name, String::from("beta"));
    assert!(lib.find_struct("gamma").is_none());
    assert_eq!(lib.get_struct(0).get_name(), String::from("alpha"));
}

#[test]
fn struct_iterator_walks_in_order() {
    let mut lib = Library::create();
    lib.structs.push(Struct { name: String::from("a"), elems: vec![] });
    lib.structs.push(Struct { name: String::from("b"), elems: vec![] });
    let mut it = lib.structs();
    assert_eq!(it.next().unwrap().name, String::from("a"));
    assert_eq!(it.next().unwrap().name, String::from("b"));
    assert!(it.next().is_none());
}

#[test]
fn elem_accessors_return_what_was_stored() {
    let e = Elem::new(ElemKind::Boundary, 42, 7, vec![Xy { x: 1, y: -2 }]);
    assert_eq!(e.get_kind(), ElemKind::Boundary);
    assert_eq!(e.get_layer(), 42);
    assert_eq!(e.get_type(), 7);
    assert_eq!(e.get_xy().len(), 1);
    assert_eq!(e.get_xy()[0], Xy { x: 1, y: -2 });
    let s = Struct { name: String::from("top"), elems: vec![e] };
    assert_eq!(s.get_num_elems(), 1);
    assert_eq!(s.get_elem(0).get_layer(), 42);
}

#[test]
fn fractions_compute_exactly() {
    let half = Rat { num: 1, den: 2 };
    let third = Rat { num: 1, den: 3 };
    assert_eq!(half.mul(&third), Some(Rat { num: 1, den: 6 }));
    assert_eq!(half.add(&third), Some(Rat { num: 5, den: 6 }));
    assert_eq!(half.sub(&third), Some(Rat { num: 1, den: 6 }));
    assert!(third.lt(&half));
    assert!(third.le(&third));
    assert!(!half.lt(&third));
    let big = Rat { num: i64::MAX, den: 1 };
    assert_eq!(big.mul(&Rat::from_int(2)), None);
}

#[test]
fn rounding_adds_one_half_then_truncates() {
    assert_eq!(Rat { num: 5, den: 2 }.round_half_up(), Some(3));
    assert_eq!(Rat { num: 9, den: 4 }.round_half_up(), Some(2));
    assert_eq!(Rat { num: 3, den: 1 }.round_half_up(), Some(3));
    assert_eq!(Rat { num: -5, den: 2 }.round_half_up(), Some(-2));
    assert_eq!(Rat { num: 0, den: 7 }.round_half_up(), Some(0));
}
