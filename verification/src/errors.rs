//! The fatal conditions of a reconciliation run.

use vstd::prelude::*;

verus! {

/// Why a run aborts with no output.
#[derive(Clone, Copy, Debug, PartialEq, Eq, Structural)]
pub enum MergeError {
    /// The partner source is not a readable table.
    PartnerUnparsable,
    /// A partner row has no `msku` field, so the index cannot be trusted.
    MissingMsku,
    /// The master source is not a readable table, or is empty (it has not
    /// even a header row).
    MasterUnparsable,
}

} // verus!
