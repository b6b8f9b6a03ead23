//! IPv4 addresses and dot-decimal subnet masks: parsing from text (with an
//! optional embedded CIDR prefix length), formatting back to text, and
//! deriving a subnet mask and a network address from a CIDR value.

pub mod bits;
pub mod constants;
pub mod errors;
pub mod laws;
pub mod text;
pub mod types;
