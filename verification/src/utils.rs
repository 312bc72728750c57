//! Shared, interiorly mutable cells, as the surrounding application
//! passes notes around.

use vstd::prelude::*;
use std::cell::RefCell;
use std::rc::Rc;

verus! {

/// Declares `core::cell::RefCell` so that it can stand in signatures; a
/// cell is opaque here and nothing is assumed about what it holds.
#[verifier::external_type_specification]
#[verifier::external_body]
#[verifier::reject_recursive_types(T)]
pub struct ExRefCell<T: ?Sized>(RefCell<T>);

/// Relies on `RefCell::new`: wraps the value into a fresh cell; nothing
/// further is claimed of the cell.
pub assume_specification<T>[ RefCell::<T>::new ](t: T) -> RefCell<T>;

/// A reference-counted, interiorly mutable cell.
pub type RcRc<T> = Rc<RefCell<T>>;

/// Wraps a value into a reference-counted, interiorly mutable cell.
pub fn rc_rc<T>(t: T) -> RcRc<T> {
    Rc::new(RefCell::new(t))
}

} // verus!
