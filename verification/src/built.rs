use vstd::prelude::*;

verus! {

/// Reads and writes a standard field that lies in one byte.
pub struct StandardSingle {}

/// Reads and writes a standard field that spans several bytes.
pub struct StandardMultiple {}

/// Reads and writes an alternate (aligned little endian) field that lies in one byte.
pub struct AlternateSingle {}

/// Reads and writes an alternate (aligned little endian) field that spans several bytes.
pub struct AlternateMultiple {}

/// Reads and writes a nested field that lies in one byte.
pub struct NestedSingle {}

/// Reads and writes a nested field that spans several bytes.
pub struct NestedMultiple {}

} // verus!
