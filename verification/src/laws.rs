use vstd::prelude::*;

use crate::constants::{MAX_CIDR, UNDEF_CIDR};
use crate::text::{
    dec_digits, lemma_dec_digits_u8_token, lemma_split_chunks_at_sep, lemma_split_chunks_no_sep,
    split_chunks,
};
use crate::types::{chunk_at, ip_fmt, ip_parse_spec, IPAddress};

verus! {

/// The tokens of a formatted address: the rendering of each octet in order,
/// and of the CIDR value when one is present.
#[verifier::rlimit(50)]
proof fn lemma_ip_fmt_chunks(ip: IPAddress)
    ensures
        ip.cidr == UNDEF_CIDR ==> split_chunks(ip_fmt(ip), false) == seq![
            dec_digits(ip.b0 as int),
            dec_digits(ip.b1 as int),
            dec_digits(ip.b2 as int),
            dec_digits(ip.b3 as int),
        ],
        ip.cidr != UNDEF_CIDR ==> split_chunks(ip_fmt(ip), false) == seq![
            dec_digits(ip.b0 as int),
            dec_digits(ip.b1 as int),
            dec_digits(ip.b2 as int),
            dec_digits(ip.b3 as int),
            dec_digits(ip.cidr as int),
        ],
{
    let d0 = dec_digits(ip.b0 as int);
    let d1 = dec_digits(ip.b1 as int);
    let d2 = dec_digits(ip.b2 as int);
    let d3 = dec_digits(ip.b3 as int);
    let dc = dec_digits(ip.cidr as int);
    lemma_dec_digits_u8_token(ip.b0 as int);
    lemma_dec_digits_u8_token(ip.b1 as int);
    lemma_dec_digits_u8_token(ip.b2 as int);
    lemma_dec_digits_u8_token(ip.b3 as int);
    lemma_dec_digits_u8_token(ip.cidr as int);
    if ip.cidr == UNDEF_CIDR {
        let t2 = d2 + seq!['.'] + d3;
        let t1 = d1 + seq!['.'] + t2;
        assert(ip_fmt(ip) =~= d0 + seq!['.'] + t1);
        lemma_split_chunks_no_sep(d3, false);
        lemma_split_chunks_at_sep(d2, '.', d3, false);
        assert(split_chunks(t2, false) == seq![d2] + seq![d3]);
        lemma_split_chunks_at_sep(d1, '.', t2, false);
        assert(split_chunks(t1, false) == seq![d1] + (seq![d2] + seq![d3]));
        lemma_split_chunks_at_sep(d0, '.', t1, false);
        assert(split_chunks(ip_fmt(ip), false) == seq![d0] + (seq![d1] + (seq![d2] + seq![d3])));
        assert(seq![d0] + (seq![d1] + (seq![d2] + seq![d3])) =~= seq![d0, d1, d2, d3]);
    } else {
        let t3 = d3 + seq!['/'] + dc;
        let t2 = d2 + seq!['.'] + t3;
        let t1 = d1 + seq!['.'] + t2;
        assert(ip_fmt(ip) =~= d0 + seq!['.'] + t1);
        lemma_split_chunks_no_sep(dc, false);
        lemma_split_chunks_at_sep(d3, '/', dc, false);
        assert(split_chunks(t3, false) == seq![d3] + seq![dc]);
        lemma_split_chunks_at_sep(d2, '.', t3, false);
        assert(split_chunks(t2, false) == seq![d2] + (seq![d3] + seq![dc]));
        lemma_split_chunks_at_sep(d1, '.', t2, false);
        assert(split_chunks(t1, false) == seq![d1] + (seq![d2] + (seq![d3] + seq![dc])));
        lemma_split_chunks_at_sep(d0, '.', t1, false);
        assert(split_chunks(ip_fmt(ip), false) == seq![d0] + (seq![d1] + (seq![d2] + (seq![d3]
            + seq![dc]))));
        assert(seq![d0] + (seq![d1] + (seq![d2] + (seq![d3] + seq![dc]))) =~= seq![
            d0,
            d1,
            d2,
            d3,
            dc,
        ]);
    }
}

/// Round trip without a CIDR: for every address whose four octets are in
/// range and whose CIDR field is the undefined sentinel, formatting and then
/// parsing the text yields exactly the address back.
pub proof fn lemma_format_parse_round_trip_no_cidr(ip: IPAddress)
    requires
        ip.cidr == UNDEF_CIDR,
    ensures
        ip_parse_spec(ip_fmt(ip)) == Some(ip),
{
    lemma_ip_fmt_chunks(ip);
    lemma_dec_digits_u8_token(ip.b0 as int);
    lemma_dec_digits_u8_token(ip.b1 as int);
    lemma_dec_digits_u8_token(ip.b2 as int);
    lemma_dec_digits_u8_token(ip.b3 as int);
    let ch = split_chunks(ip_fmt(ip), false);
    assert(chunk_at(ch, 0) == dec_digits(ip.b0 as int));
    assert(chunk_at(ch, 1) == dec_digits(ip.b1 as int));
    assert(chunk_at(ch, 2) == dec_digits(ip.b2 as int));
    assert(chunk_at(ch, 3) == dec_digits(ip.b3 as int));
}

/// Round trip with a CIDR: for every address whose CIDR value is a valid
/// prefix length, formatting and then parsing the text yields exactly the
/// address back, CIDR included.
pub proof fn lemma_format_parse_round_trip_with_cidr(ip: IPAddress)
    requires
        ip.cidr <= MAX_CIDR,
    ensures
        ip_parse_spec(ip_fmt(ip)) == Some(ip),
{
    lemma_ip_fmt_chunks(ip);
    lemma_dec_digits_u8_token(ip.b0 as int);
    lemma_dec_digits_u8_token(ip.b1 as int);
    lemma_dec_digits_u8_token(ip.b2 as int);
    lemma_dec_digits_u8_token(ip.b3 as int);
    lemma_dec_digits_u8_token(ip.cidr as int);
    let ch = split_chunks(ip_fmt(ip), false);
    assert(chunk_at(ch, 0) == dec_digits(ip.b0 as int));
    assert(chunk_at(ch, 1) == dec_digits(ip.b1 as int));
    assert(chunk_at(ch, 2) == dec_digits(ip.b2 as int));
    assert(chunk_at(ch, 3) == dec_digits(ip.b3 as int));
    assert(ch[4] == dec_digits(ip.cidr as int));
}

/// Formatting is a pure function of the fields alone: two addresses with
/// identical fields format identically, however each was constructed.
pub proof fn lemma_format_of_fields(a: IPAddress, b: IPAddress)
    requires
        a.b0 == b.b0,
        a.b1 == b.b1,
        a.b2 == b.b2,
        a.b3 == b.b3,
        a.cidr == b.cidr,
    ensures
        ip_fmt(a) == ip_fmt(b),
{
    assert(a == b);
}

} // verus!
