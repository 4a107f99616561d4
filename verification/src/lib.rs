use vstd::prelude::*;

pub mod bit_buffers;
pub mod bits;
pub mod descriptor_items;
pub mod descriptors;
pub mod reports;
pub mod usage_table;

verus! {

/// The error taxonomy shared by the item codec, the descriptor compiler and
/// the report codec. Every failure is fatal at its detection point.
#[derive(Debug, PartialEq, Eq, Clone, Copy, Structural)]
pub enum HidError {
    /// Misaligned or too-short bytes, a size-code/length mismatch, an unknown
    /// tag/type, or an out-of-range collection type byte.
    MalformedItem,
    /// A field/value list length mismatch, or a value whose shape disagrees
    /// with its field's expected shape.
    ShapeMismatch,
    /// A value outside its field's declared logical range at write time.
    RangeViolation,
    /// A usage absent from the usage table, or absent from an array field's
    /// own usage-range list.
    UnresolvedUsage,
    /// A field's logical range leaves no room for a null sentinel.
    DegenerateRange,
}

} // verus!
