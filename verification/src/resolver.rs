//! Resolution adapter: the fallback policy around recursive resolution.
//! The resolver call itself is network I/O that must not run under any
//! lock and, with an asynchronous resolver, is awaited by the transport
//! loop between the serving steps; this module fixes what is answered for
//! every possible outcome of that call, so a caller always has an address.

use vstd::prelude::*;
use crate::encoder::Address;

verus! {

/// The fixed IPv4 address answered when resolution fails or finds nothing.
pub open spec fn fallback_address() -> Address {
    Address::V4([192u8, 168u8, 1u8, 1u8])
}

/// The fixed IPv6 loopback address answered for AAAA questions.
pub open spec fn loopback_v6() -> Address {
    Address::V6([0u8, 0, 0, 0, 0, 0, 0, 0, 0, 0, 0, 0, 0, 0, 0, 1])
}

/// The fallback policy: the resolver's answer when there is one, else the
/// fixed fallback address.
pub open spec fn with_fallback(resolved: Option<Address>) -> Address {
    match resolved {
        Some(a) => a,
        None => fallback_address(),
    }
}

/// Applies the fallback policy to a resolution outcome.
pub fn apply_fallback(resolved: Option<Address>) -> (r: Address)
    ensures
        r == with_fallback(resolved),
{
    match resolved {
        Some(a) => a,
        None => Address::V4([192, 168, 1, 1]),
    }
}

} // verus!
