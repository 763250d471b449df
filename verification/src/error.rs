use crate::data::FieldKey;
use vstd::prelude::*;

verus! {

/// A feature the solver does not handle yet.
#[derive(Clone, Copy, Debug, PartialEq, Eq)]
pub enum UnfinishedFeature {
    /// A field was marked `capture_id` in a structure that is not an enum variant.
    CaptureIdOutsideEnum,
    /// Automatic fill bits were asked for in an enum.
    AutoFillInEnum,
}

/// Why a bitfield layout could not be solved.
#[derive(Clone, Copy, Debug, PartialEq, Eq)]
pub enum SolvingError {
    /// Fields overlaps
    Overlap,
    /// Placing the field would have moved one of its bits before bit zero.
    ResolverUnderflow(FieldKey),
    /// Final bit count was not evenly divisible by 8.
    EnforceFullBytes,
    /// Final bit count does not match enforcement size.
    EnforceBitCount { actual: usize, user: usize },
    /// The variant at this declaration position reuses an id.
    VariantConflict(usize),
    /// The largest variant id does not fit in the id field.
    VariantIdBitLength { variant_id_max_value: usize, bit_length: usize },
    /// The largest variant payload does not fit in the payload.
    VariantPayloadBitLength { largest_payload_length: usize, bit_length: usize },
    /// The id field is this many bits long, which no unsigned type holds.
    VariantIdType(usize),
    /// A feature you are trying to use in not yet supported.
    Unfinished(UnfinishedFeature),
}

} // verus!
