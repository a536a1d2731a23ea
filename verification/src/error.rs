//! The error taxonomy of the topology queries.

use vstd::prelude::*;

verus! {

/// Why a topology query failed.
///
/// `NotFound`: a pseudo-filesystem is unmounted, a device node is
/// absent, or a required parent/slave relation is missing.
/// `InvalidInput`: a caller-supplied value does not denote a block
/// device or is a malformed identifier.
/// `InvalidData`: kernel-exposed text is malformed.
#[derive(Clone, Copy, PartialEq, Eq, Structural, Debug)]
pub enum TopoError {
    NotFound,
    InvalidInput,
    InvalidData,
}

} // verus!
