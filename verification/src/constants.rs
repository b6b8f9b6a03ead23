use vstd::prelude::*;

verus! {

/// Sentinel CIDR value meaning "no CIDR was supplied"; not a valid prefix length.
pub const UNDEF_CIDR: u8 = 0xFA;

/// Sentinel CIDR value reserved for invalid-state signaling; defined for
/// interface stability, not produced by any operation here.
pub const INVALID_CIDR: u8 = 0xFF;

/// Maximum allowed CIDR prefix length for an IPv4 address.
pub const MAX_CIDR: u8 = 0x20;

/// Minimum value of an address or mask octet.
pub const MIN_BLOCK: u8 = 0x00;

/// Maximum value of an address or mask octet.
pub const MAX_BLOCK: u8 = 0xFF;

} // verus!
