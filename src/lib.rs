//! A phone-number scalar type for a database engine: the value, its canonical
//! text form, a strict parser for that form, and a total order over its fields.

pub mod demo;
pub mod groups;
pub mod phone_number;

use vstd::prelude::*;

verus! {

/// The kinds of animal that the demonstration records carry.
#[derive(Clone, Copy, Debug, PartialEq, Eq, Structural)]
pub enum Species {
    Dog,
    Cat,
    Fish,
}

} // verus!
