//! The ways in which input can be refused.

use vstd::prelude::*;

verus! {

/// Why a record, an address, a mask or a set of routes was refused.
#[derive(Clone, Copy, Debug, PartialEq, Eq, Structural)]
pub enum RouteError {
    /// A record is not an address and a mask with one `/` between them.
    MalformedRecord,
    /// A dotted-decimal string does not hold exactly four octets from 0 to
    /// 255.
    MalformedOctetList,
    /// A prefix length is no numeral, or is greater than 32.
    MalformedMaskInteger,
    /// The bits of a dotted-decimal mask are not a run of ones followed by a
    /// run of zeros.
    NonContiguousMask,
    /// An address has bits set outside the network part that its mask gives.
    HostBitsSet,
    /// A summary was asked of no routes at all.
    EmptyInputSet,
}

} // verus!
