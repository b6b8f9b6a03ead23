use vstd::prelude::*;

verus! {

/// Describes a parsing error of some kind.
#[derive(Debug)]
#[allow(inconsistent_fields)]
pub enum ParseError {
    /// A named field failed to parse as an integer: `position` says which
    /// logical field ("byte 0".."byte 3", "CIDR value"), `value` holds the
    /// offending text.
    GenericError { position: String, value: String },
    /// A supplied CIDR numeral exceeded the maximum; carries the numeral.
    MaxCidrExceeded { value: u8 },
}

/// Describes an error related to a subnet mask derivation.
#[derive(Debug)]
pub enum NetmaskError {
    /// A mask was requested for an address whose CIDR was never set.
    UndefinedCidr,
    /// The CIDR exceeds the maximum; carries the value.
    MaxCidrExceeded { value: u8 },
    /// Reserved for compound-failure signaling; no operation here produces it.
    CalculationError,
}

} // verus!
