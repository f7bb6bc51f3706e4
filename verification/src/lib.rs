//! Packed bit fields over a byte buffer.
//!
//! Fields of 1 to 64 bits stand one after the other in a byte array, with
//! no padding between them. Bit 0 is the most significant bit of byte 0;
//! a field's first bit is its most significant one. A structure's fields
//! add up to a whole number of bytes.
//!
//! There are two ways to describe a structure. A schema that is built
//! while the program runs is a [`layout::FieldLayout`], and a structure of
//! that schema is a [`schema::SchemaInstance`]. A structure that is a type
//! of its own implements [`BitField`] and lays its fields out itself, as
//! [`redirection::RedirectionTableEntry`] does. Both read and write
//! through [`bits::extract_bit_range`] and [`bits::set_bit_range`].
pub mod as_bytes;
pub mod bit_field;
pub mod bits;
pub mod buffer;
pub mod checks;
pub mod convert;
pub mod enum_spec;
pub mod error;
pub mod layout;
pub mod redirection;
pub mod schema;
pub mod search;
pub mod specifier;
mod text;
pub mod width;

pub use crate::as_bytes::AsBytes;
pub use crate::bit_field::BitField;
pub use crate::buffer::BitBuffer;
pub use crate::convert::{BitfieldFrom, BitfieldSpecifier};
pub use crate::enum_spec::{EnumSpec, Variant};
pub use crate::error::{DecodeError, RangeError, SchemaError};
pub use crate::layout::{FieldKind, FieldLayout, FieldSpec};
pub use crate::schema::{SchemaInstance, Value};
pub use crate::specifier::Specifier;
pub use crate::width::WidthSpec;
