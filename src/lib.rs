//! A bridge between parsed JSON documents and typed values.
//!
//! A parsed document is a tree of [`node::Node`]s. The deserialization
//! adapter reads typed values out of it, either piece by piece (the readers
//! and cursors of [`de`]) or whole, driven by a [`typed::Shape`] that
//! describes the target type ([`bind::from_element`]). The serialization
//! adapter writes a typed value as the tokens of its JSON text ([`ser`]),
//! which an output buffer spells out. The generic-value converter turns a
//! node into a dynamically typed [`value::Value`] under a bound on nesting
//! depth. [`laws`] states and proves how these fit together.
pub mod bind;
pub mod de;
pub mod error;
pub mod laws;
pub mod node;
pub mod ser;
pub mod typed;
pub mod value;

pub use bind::from_element;
pub use error::{EnumShapeError, Error, Expected, IntWidth, NodeKind};
pub use node::Node;
pub use ser::{to_string, to_string_with_capacity, Token};
pub use typed::{Shape, Typed, VariantShape};
pub use value::{element_to_value, Number, Value};
pub mod tape;
