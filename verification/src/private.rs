//! What keeps the set of index types closed.

use crate::value::Value;
use vstd::prelude::*;

verus! {

/// Only the types named here can index into a value.
pub trait Sealed {

}

impl Sealed for usize {

}

impl Sealed for str {

}

impl Sealed for String {

}

impl Sealed for Value {

}

impl<T> Sealed for &T where T: ?Sized + Sealed {

}

} // verus!
