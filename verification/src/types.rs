use vstd::prelude::*;

use vstd::arithmetic::power2::{lemma2_to64, pow2};

use crate::bits::{popcount, popcount8};
use crate::constants::{MAX_CIDR, UNDEF_CIDR};
use crate::errors::{NetmaskError, ParseError};
use crate::text::{
    dec_digits, is_u8_token, parse_u8_token, push_u8_dec, split_chunks, split_str, token_u8,
};

verus! {

/// Represents a single IP address.
#[derive(Clone, Copy)]
pub struct IPAddress {
    /// First octet of the address.
    pub b0: u8,
    /// Second octet of the address.
    pub b1: u8,
    /// Third octet of the address.
    pub b2: u8,
    /// Fourth octet of the address.
    pub b3: u8,
    /// CIDR prefix length, or `UNDEF_CIDR` when none was supplied.
    pub cidr: u8,
}

/// Represents a dot-decimal subnet mask.
#[derive(Clone, Copy)]
pub struct SubnetMask {
    /// First octet of the mask.
    pub b0: u8,
    /// Second octet of the mask.
    pub b1: u8,
    /// Third octet of the mask.
    pub b2: u8,
    /// Fourth octet of the mask.
    pub b3: u8,
}

/// Token `k` of a chunk sequence; a missing token reads as empty text.
pub open spec fn chunk_at(ch: Seq<Seq<char>>, k: int) -> Seq<char> {
    if 0 <= k < ch.len() {
        ch[k]
    } else {
        Seq::empty()
    }
}

/// The dot-decimal text of four octets.
pub open spec fn quad_fmt(b0: u8, b1: u8, b2: u8, b3: u8) -> Seq<char> {
    dec_digits(b0 as int) + seq!['.'] + dec_digits(b1 as int) + seq!['.'] + dec_digits(b2 as int)
        + seq!['.'] + dec_digits(b3 as int)
}

/// The text an IP address formats to: its four octets, and a `/cidr` suffix
/// exactly when a CIDR value is present.
pub open spec fn ip_fmt(ip: IPAddress) -> Seq<char> {
    if ip.cidr == UNDEF_CIDR {
        quad_fmt(ip.b0, ip.b1, ip.b2, ip.b3)
    } else {
        quad_fmt(ip.b0, ip.b1, ip.b2, ip.b3) + seq!['/'] + dec_digits(ip.cidr as int)
    }
}

/// The text a subnet mask formats to.
pub open spec fn mask_fmt(m: SubnetMask) -> Seq<char> {
    quad_fmt(m.b0, m.b1, m.b2, m.b3)
}

/// What parsing an IP address from `s` returns on success: the first four
/// tokens as octets, a fifth token (when present, and at most `MAX_CIDR`) as
/// the CIDR value, tokens beyond the fifth ignored.
pub open spec fn ip_parse_spec(s: Seq<char>) -> Option<IPAddress> {
    let ch = split_chunks(s, false);
    if is_u8_token(chunk_at(ch, 0)) && is_u8_token(chunk_at(ch, 1)) && is_u8_token(chunk_at(ch, 2))
        && is_u8_token(chunk_at(ch, 3)) && (ch.len() < 5 || (is_u8_token(ch[4]) && token_u8(ch[4])
        <= MAX_CIDR as int)) {
        Some(
            IPAddress {
                b0: token_u8(chunk_at(ch, 0)) as u8,
                b1: token_u8(chunk_at(ch, 1)) as u8,
                b2: token_u8(chunk_at(ch, 2)) as u8,
                b3: token_u8(chunk_at(ch, 3)) as u8,
                cidr: if ch.len() >= 5 {
                    token_u8(ch[4]) as u8
                } else {
                    UNDEF_CIDR
                },
            },
        )
    } else {
        None
    }
}

/// The error a named field's failure produces: which logical field, and the
/// offending text.
pub open spec fn generic_err(e: ParseError, pos: Seq<char>, val: Seq<char>) -> bool {
    e matches ParseError::GenericError { position, value } && position@ == pos && value@ == val
}

/// Exactly which error parsing an IP address from `s` returns, following the
/// strict octet-order precedence: the first missing or malformed token wins.
pub open spec fn ip_parse_err_spec(s: Seq<char>, e: ParseError) -> bool {
    let ch = split_chunks(s, false);
    if !is_u8_token(chunk_at(ch, 0)) {
        generic_err(e, "byte 0"@, chunk_at(ch, 0))
    } else if !is_u8_token(chunk_at(ch, 1)) {
        generic_err(e, "byte 1"@, chunk_at(ch, 1))
    } else if !is_u8_token(chunk_at(ch, 2)) {
        generic_err(e, "byte 2"@, chunk_at(ch, 2))
    } else if !is_u8_token(chunk_at(ch, 3)) {
        generic_err(e, "byte 3"@, chunk_at(ch, 3))
    } else if ch.len() >= 5 && !is_u8_token(ch[4]) {
        generic_err(e, "CIDR value"@, ch[4])
    } else if ch.len() >= 5 && token_u8(ch[4]) > MAX_CIDR as int {
        e matches ParseError::MaxCidrExceeded { value } && value as int == token_u8(ch[4])
    } else {
        false
    }
}

/// What parsing a subnet mask from `s` returns on success: the first four
/// dot-separated tokens as octets.
pub open spec fn mask_parse_spec(s: Seq<char>) -> Option<SubnetMask> {
    let ch = split_chunks(s, true);
    if is_u8_token(chunk_at(ch, 0)) && is_u8_token(chunk_at(ch, 1)) && is_u8_token(chunk_at(ch, 2))
        && is_u8_token(chunk_at(ch, 3)) {
        Some(
            SubnetMask {
                b0: token_u8(chunk_at(ch, 0)) as u8,
                b1: token_u8(chunk_at(ch, 1)) as u8,
                b2: token_u8(chunk_at(ch, 2)) as u8,
                b3: token_u8(chunk_at(ch, 3)) as u8,
            },
        )
    } else {
        None
    }
}

/// Exactly which error parsing a subnet mask from `s` returns.
pub open spec fn mask_parse_err_spec(s: Seq<char>, e: ParseError) -> bool {
    let ch = split_chunks(s, true);
    if !is_u8_token(chunk_at(ch, 0)) {
        generic_err(e, "byte 0"@, chunk_at(ch, 0))
    } else if !is_u8_token(chunk_at(ch, 1)) {
        generic_err(e, "byte 1"@, chunk_at(ch, 1))
    } else if !is_u8_token(chunk_at(ch, 2)) {
        generic_err(e, "byte 2"@, chunk_at(ch, 2))
    } else if !is_u8_token(chunk_at(ch, 3)) {
        generic_err(e, "byte 3"@, chunk_at(ch, 3))
    } else {
        false
    }
}

/// How many of the high bits of octet `pos` (numbered from the most
/// significant octet) a prefix of `cidr` bits covers.
pub open spec fn cidr_bits_in_octet(cidr: int, pos: int) -> int {
    if cidr >= (pos + 1) * 8 {
        8
    } else if cidr <= pos * 8 {
        0
    } else {
        cidr - pos * 8
    }
}

/// The byte whose `k` high-order bits are one and whose remaining bits are
/// zero.
pub open spec fn high_bits_mask(k: int) -> int {
    0x100 - pow2((8 - k) as nat)
}

/// Octet `pos` of the canonical mask for a prefix of `cidr` bits.
pub open spec fn mask_octet(cidr: int, pos: int) -> int {
    high_bits_mask(cidr_bits_in_octet(cidr, pos))
}

/// The byte with `k` high bits set, as a value.
fn octet_for(k: u8) -> (r: u8)
    requires
        k <= 8,
    ensures
        r as int == high_bits_mask(k as int),
{
    proof {
        lemma2_to64();
    }
    if k == 0 {
        0
    } else if k == 1 {
        128
    } else if k == 2 {
        192
    } else if k == 3 {
        224
    } else if k == 4 {
        240
    } else if k == 5 {
        248
    } else if k == 6 {
        252
    } else if k == 7 {
        254
    } else {
        255
    }
}

/// Parses the `k`-th token as an octet value; a missing token fails exactly
/// as a malformed one does, with an empty offending text.
fn parse_chunk(chunks: &Vec<&str>, k: usize, pos_name: &str) -> (r: Result<u8, ParseError>)
    ensures
        r is Ok <==> is_u8_token(chunk_at(chunks.deep_view(), k as int)),
        r is Ok ==> r->Ok_0 as int == token_u8(chunk_at(chunks.deep_view(), k as int)),
        r is Err ==> (r->Err_0 matches ParseError::GenericError { position, value } && position@
            == pos_name@ && value@ == chunk_at(chunks.deep_view(), k as int)),
{
    if k < chunks.len() {
        let tok = chunks[k];
        assert(tok@ == chunk_at(chunks.deep_view(), k as int));
        match parse_u8_token(tok) {
            Some(v) => Ok(v),
            None => Err(
                ParseError::GenericError { position: pos_name.to_owned(), value: tok.to_owned() },
            ),
        }
    } else {
        assert(chunk_at(chunks.deep_view(), k as int) =~= Seq::<char>::empty());
        Err(ParseError::GenericError { position: pos_name.to_owned(), value: String::new() })
    }
}

impl IPAddress {
    /// Creates a new IP address from its four octets and a CIDR value.
    pub fn new(b0: u8, b1: u8, b2: u8, b3: u8, cidr: u8) -> (r: IPAddress)
        ensures
            r == (IPAddress { b0, b1, b2, b3, cidr }),
    {
        IPAddress { b0, b1, b2, b3, cidr }
    }

    /// Creates a new IP address carrying no CIDR value.
    pub fn new_without_cidr(b0: u8, b1: u8, b2: u8, b3: u8) -> (r: IPAddress)
        ensures
            r == (IPAddress { b0, b1, b2, b3, cidr: UNDEF_CIDR }),
    {
        IPAddress::new(b0, b1, b2, b3, UNDEF_CIDR)
    }

    /// Constructs an IP address from an owned string, which may or may not
    /// carry a CIDR suffix.
    pub fn from_string(ip_address: String) -> (r: Result<IPAddress, ParseError>)
        ensures
            r is Ok <==> ip_parse_spec(ip_address@) is Some,
            r is Ok ==> r->Ok_0 == ip_parse_spec(ip_address@)->0,
            r is Err ==> ip_parse_err_spec(ip_address@, r->Err_0),
    {
        IPAddress::from_str(ip_address.as_str())
    }

    /// Constructs an IP address from a string slice, which may or may not
    /// carry a CIDR suffix.
    pub fn from_str(ip_address: &str) -> (r: Result<IPAddress, ParseError>)
        ensures
            r is Ok <==> ip_parse_spec(ip_address@) is Some,
            r is Ok ==> r->Ok_0 == ip_parse_spec(ip_address@)->0,
            r is Err ==> ip_parse_err_spec(ip_address@, r->Err_0),
    {
        let chunks = split_str(ip_address, false);
        let b0 = match parse_chunk(&chunks, 0, "byte 0") {
            Ok(v) => v,
            Err(e) => {
                return Err(e);
            },
        };
        let b1 = match parse_chunk(&chunks, 1, "byte 1") {
            Ok(v) => v,
            Err(e) => {
                return Err(e);
            },
        };
        let b2 = match parse_chunk(&chunks, 2, "byte 2") {
            Ok(v) => v,
            Err(e) => {
                return Err(e);
            },
        };
        let b3 = match parse_chunk(&chunks, 3, "byte 3") {
            Ok(v) => v,
            Err(e) => {
                return Err(e);
            },
        };
        let mut cidr: u8 = UNDEF_CIDR;
        if chunks.len() >= 5 {
            let c = match parse_chunk(&chunks, 4, "CIDR value") {
                Ok(v) => v,
                Err(e) => {
                    return Err(e);
                },
            };
            if c > MAX_CIDR {
                return Err(ParseError::MaxCidrExceeded { value: c });
            }
            cidr = c;
        }
        Ok(IPAddress::new(b0, b1, b2, b3, cidr))
    }

    /// Converts the address into its dot-decimal text, with a `/cidr` suffix
    /// exactly when a CIDR value is present.
    pub fn to_string(&self) -> (r: String)
        ensures
            r@ == ip_fmt(*self),
    {
        let mut out = String::new();
        push_quad(&mut out, self.b0, self.b1, self.b2, self.b3);
        if self.cidr != UNDEF_CIDR {
            out.append("/");
            push_u8_dec(&mut out, self.cidr);
            proof {
                reveal_strlit("/");
                assert(out@ =~= ip_fmt(*self));
            }
        } else {
            proof {
                assert(out@ =~= ip_fmt(*self));
            }
        }
        out
    }

    /// Calculates the network address of this IP address: each octet masked
    /// by the subnet mask its own CIDR value derives, the CIDR value kept.
    pub fn calculate_subnet(&self) -> (r: Result<IPAddress, NetmaskError>)
        ensures
            self.cidr == UNDEF_CIDR ==> r == Err::<IPAddress, NetmaskError>(
                NetmaskError::UndefinedCidr,
            ),
            self.cidr != UNDEF_CIDR && self.cidr > MAX_CIDR ==> r == Err::<IPAddress, NetmaskError>(
                (NetmaskError::MaxCidrExceeded { value: self.cidr }),
            ),
            self.cidr <= MAX_CIDR ==> (r matches Ok(n) && n.b0 == self.b0 & (mask_octet(
                self.cidr as int,
                0,
            ) as u8) && n.b1 == self.b1 & (mask_octet(self.cidr as int, 1) as u8) && n.b2 == self.b2
                & (mask_octet(self.cidr as int, 2) as u8) && n.b3 == self.b3 & (mask_octet(
                self.cidr as int,
                3,
            ) as u8) && n.cidr == self.cidr),
    {
        let netmask = match SubnetMask::from_cidr(self.cidr) {
            Ok(m) => m,
            Err(e) => {
                return Err(e);
            },
        };
        let mut result = *self;
        result.b0 = result.b0 & netmask.b0;
        result.b1 = result.b1 & netmask.b1;
        result.b2 = result.b2 & netmask.b2;
        result.b3 = result.b3 & netmask.b3;
        Ok(result)
    }
}

impl SubnetMask {
    /// Creates a new subnet mask from its four octets.
    pub fn new(b0: u8, b1: u8, b2: u8, b3: u8) -> (r: SubnetMask)
        ensures
            r == (SubnetMask { b0, b1, b2, b3 }),
    {
        SubnetMask { b0, b1, b2, b3 }
    }

    /// Derives the canonical mask for a CIDR prefix length: the 32-bit
    /// pattern whose high `cidr` bits are one, split into four octets, most
    /// significant first.
    pub fn from_cidr(cidr: u8) -> (r: Result<SubnetMask, NetmaskError>)
        ensures
            cidr == UNDEF_CIDR ==> r == Err::<SubnetMask, NetmaskError>(
                NetmaskError::UndefinedCidr,
            ),
            cidr != UNDEF_CIDR && cidr > MAX_CIDR ==> r == Err::<SubnetMask, NetmaskError>(
                (NetmaskError::MaxCidrExceeded { value: cidr }),
            ),
            cidr <= MAX_CIDR ==> (r matches Ok(m) && m.b0 as int == mask_octet(cidr as int, 0)
                && m.b1 as int == mask_octet(cidr as int, 1) && m.b2 as int == mask_octet(
                cidr as int,
                2,
            ) && m.b3 as int == mask_octet(cidr as int, 3)),
    {
        if cidr == UNDEF_CIDR {
            return Err(NetmaskError::UndefinedCidr);
        }
        if cidr > MAX_CIDR {
            return Err(NetmaskError::MaxCidrExceeded { value: cidr });
        }
        let k0 = if cidr >= 8 {
            8
        } else {
            cidr
        };
        let k1 = if cidr >= 16 {
            8
        } else if cidr <= 8 {
            0
        } else {
            cidr - 8
        };
        let k2 = if cidr >= 24 {
            8
        } else if cidr <= 16 {
            0
        } else {
            cidr - 16
        };
        let k3 = if cidr <= 24 {
            0
        } else {
            cidr - 24
        };
        Ok(SubnetMask::new(octet_for(k0), octet_for(k1), octet_for(k2), octet_for(k3)))
    }

    /// Constructs a subnet mask from an owned string of four dot-separated
    /// octets.
    pub fn from_string(netmask: String) -> (r: Result<SubnetMask, ParseError>)
        ensures
            r is Ok <==> mask_parse_spec(netmask@) is Some,
            r is Ok ==> r->Ok_0 == mask_parse_spec(netmask@)->0,
            r is Err ==> mask_parse_err_spec(netmask@, r->Err_0),
    {
        SubnetMask::from_str(netmask.as_str())
    }

    /// Constructs a subnet mask from a string slice of four dot-separated
    /// octets.
    pub fn from_str(netmask: &str) -> (r: Result<SubnetMask, ParseError>)
        ensures
            r is Ok <==> mask_parse_spec(netmask@) is Some,
            r is Ok ==> r->Ok_0 == mask_parse_spec(netmask@)->0,
            r is Err ==> mask_parse_err_spec(netmask@, r->Err_0),
    {
        let chunks = split_str(netmask, true);
        let b0 = match parse_chunk(&chunks, 0, "byte 0") {
            Ok(v) => v,
            Err(e) => {
                return Err(e);
            },
        };
        let b1 = match parse_chunk(&chunks, 1, "byte 1") {
            Ok(v) => v,
            Err(e) => {
                return Err(e);
            },
        };
        let b2 = match parse_chunk(&chunks, 2, "byte 2") {
            Ok(v) => v,
            Err(e) => {
                return Err(e);
            },
        };
        let b3 = match parse_chunk(&chunks, 3, "byte 3") {
            Ok(v) => v,
            Err(e) => {
                return Err(e);
            },
        };
        Ok(SubnetMask::new(b0, b1, b2, b3))
    }

    /// Converts the mask into its dot-decimal text; a mask never carries a
    /// CIDR suffix.
    pub fn to_string(&self) -> (r: String)
        ensures
            r@ == mask_fmt(*self),
    {
        let mut out = String::new();
        push_quad(&mut out, self.b0, self.b1, self.b2, self.b3);
        proof {
            assert(out@ =~= mask_fmt(*self));
        }
        out
    }
}

/// Appends the dot-decimal text of four octets to `out`.
fn push_quad(out: &mut String, b0: u8, b1: u8, b2: u8, b3: u8)
    ensures
        final (out)@ == old(out)@ + quad_fmt(b0, b1, b2, b3),
{
    let ghost base = out@;
    push_u8_dec(out, b0);
    out.append(".");
    push_u8_dec(out, b1);
    out.append(".");
    push_u8_dec(out, b2);
    out.append(".");
    push_u8_dec(out, b3);
    proof {
        reveal_strlit(".");
        assert("."@ =~= seq!['.']);
        assert(out@ =~= base + quad_fmt(b0, b1, b2, b3));
    }
}

/// Counts the set bits across the four octets of an address.
pub fn count_set_bits(b0: u8, b1: u8, b2: u8, b3: u8) -> (r: u32)
    ensures
        r as nat == popcount(b0 as nat) + popcount(b1 as nat) + popcount(b2 as nat) + popcount(
            b3 as nat,
        ),
        r <= 32,
{
    popcount8(b0) as u32 + popcount8(b1) as u32 + popcount8(b2) as u32 + popcount8(b3) as u32
}

} // verus!
