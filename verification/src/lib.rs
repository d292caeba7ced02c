//! A loosely typed tree for YAML documents: the value model, indexing into
//! it, and the resolution of `<<` merge keys, with every operation specified
//! against a mathematical model of the tree and proved by Verus.
//!
//! - [`value`] holds [`Value`] with its typed accessors, and below it the
//!   model ([`value::model`]), indexing ([`value::index`]), merge
//!   resolution ([`value::merge`]), hashing ([`value::hash`]), the order of
//!   values ([`value::order`]) and the laws that hold of them
//!   ([`value::equality`], [`value::well_formed`], [`value::laws`]).
//! - [`mapping`] holds [`Mapping`], which keeps its entries in insertion
//!   order and finds a key by equality.
//! - [`number`] holds [`Number`]; a floating-point number is held by its
//!   bits.
//! - [`error`] holds the errors of merge resolution.

pub mod error;
pub mod hashing;
pub mod mapping;
pub mod number;
mod private;
pub mod value;

pub use crate::error::Error;
pub use crate::mapping::Mapping;
pub use crate::number::{Number, NumberView};
pub use crate::value::hash::hash_text;
pub use crate::value::index::{Index, Key};
pub use crate::value::merge::Outcome;
pub use crate::value::model::{Entries, IndexView, ValueView};
pub use crate::value::tagged::TaggedValue;
pub use crate::value::{Sequence, Value};
