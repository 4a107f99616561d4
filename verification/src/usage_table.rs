use vstd::prelude::*;

use crate::HidError;
use hut::{AsUsage, AsUsagePage};

verus! {

// ---------------------------------------------------------------------------
// The usage table provider.
//
// A flat 32-bit usage value embeds a usage page in its upper sixteen bits and
// an in-page usage id in its lower sixteen. Whether a value names a known
// usage is decided by the usage table, an outside capability the compiler
// only consults.
// ---------------------------------------------------------------------------

/// The usage page embedded in a flat usage value: its upper sixteen bits.
pub open spec fn usage_page_of(raw: u32) -> u16 {
    (raw >> 16) as u16
}

/// The in-page usage id of a flat usage value: its lower sixteen bits.
pub open spec fn usage_id_of(raw: u32) -> u16 {
    (raw & 0xffff) as u16
}

/// Whether the usage table knows the given flat usage value.
pub uninterp spec fn usage_table_has(raw: u32) -> bool;

/// What resolving a flat usage value yields: its page and id halves for a
/// known value, nothing for an unknown one.
pub open spec fn resolve_usage_spec(raw: u32) -> Result<(u16, u16), HidError> {
    if usage_table_has(raw) {
        Ok((usage_page_of(raw), usage_id_of(raw)))
    } else {
        Err(HidError::UnresolvedUsage)
    }
}

/// Relies on hut's `Usage::try_from::<u32>`, `usage_page_value` and
/// `usage_id_value`: a value the table knows resolves to the page in its
/// upper sixteen bits and the id in its lower sixteen; an unknown one fails.
#[verifier::external_body]
pub fn resolve_usage(raw: u32) -> (r: Result<(u16, u16), HidError>)
    ensures
        r == resolve_usage_spec(raw),
        r is Ok <==> usage_table_has(raw),
{
    match hut::Usage::try_from(raw) {
        Ok(u) => Ok((u.usage_page_value(), u.usage_id_value())),
        Err(_) => Err(HidError::UnresolvedUsage),
    }
}

} // verus!
