//! Bit-layout engine of a bitfield derive: it decides where every field of a
//! structure or enum variant lives inside a byte array, which bits of each byte
//! a field touches, and which masks and shifts move a value in and out of place.
pub mod masks;
pub mod endianness;
pub mod field;
pub mod error;
pub mod data;
pub mod attrs;
pub mod solve;
pub mod resolver;
pub mod field_set;
pub mod variants;
pub mod solved;
pub mod additive;
pub mod array_iter;
pub mod object_attrs;
pub mod struct_info;
pub mod enum_info;
pub mod built;
pub mod names;
pub mod field_attrs;
pub mod layout;
pub mod text;
pub mod field_type;
pub mod access;
