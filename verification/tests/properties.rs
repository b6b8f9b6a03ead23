use subnet::constants::{MAX_CIDR, UNDEF_CIDR};
use subnet::errors::{NetmaskError, ParseError};
use subnet::types::{count_set_bits, IPAddress, SubnetMask};

#[test]
fn round_trip_without_cidr() {
    let ip = IPAddress::new_without_cidr(10, 0, 200, 255);
    let text = ip.to_string();
    assert_eq!(text, "10.0.200.255");
    let back = IPAddress::from_str(&text).unwrap();
    assert_eq!(back.b0, 10);
    assert_eq!(back.b1, 0);
    assert_eq!(back.b2, 200);
    assert_eq!(back.b3, 255);
    assert_eq!(back.cidr, UNDEF_CIDR);
}

#[test]
fn round_trip_with_cidr() {
    let ip = IPAddress::new(172, 16, 0, 1, 32);
    let text = ip.to_string();
    assert_eq!(text, "172.16.0.1/32");
    let back = IPAddress::from_str(&text).unwrap();
    assert_eq!(back.b0, 172);
    assert_eq!(back.b1, 16);
    assert_eq!(back.b2, 0);
    assert_eq!(back.b3, 1);
    assert_eq!(back.cidr, 32);

    let zero = IPAddress::new(0, 0, 0, 0, 0);
    let text = zero.to_string();
    assert_eq!(text, "0.0.0.0/0");
    let back = IPAddress::from_str(&text).unwrap();
    assert_eq!(back.b0, 0);
    assert_eq!(back.b3, 0);
    assert_eq!(back.cidr, 0);
}

#[test]
fn wrong_octet_names_its_position() {
    match IPAddress::from_str("192.i68.1.2/24") {
        Err(ParseError::GenericError { position, value }) => {
            assert_eq!(position, "byte 1");
            assert_eq!(value, "i68");
        }
        _ => panic!("expected a parse failure naming byte 1"),
    }
}

#[test]
fn missing_cidr_is_the_sentinel_and_formats_without_slash() {
    let ip = IPAddress::from_str("192.168.1.2").unwrap();
    assert_eq!(ip.cidr, UNDEF_CIDR);
    assert_eq!(ip.to_string(), "192.168.1.2");
}

#[test]
fn mask_from_cidr_boundaries() {
    let m = SubnetMask::from_cidr(0).unwrap();
    assert_eq!((m.b0, m.b1, m.b2, m.b3), (0, 0, 0, 0));

    let m = SubnetMask::from_cidr(32).unwrap();
    assert_eq!((m.b0, m.b1, m.b2, m.b3), (255, 255, 255, 255));

    let m = SubnetMask::from_cidr(24).unwrap();
    assert_eq!((m.b0, m.b1, m.b2, m.b3), (255, 255, 255, 0));

    assert!(matches!(
        SubnetMask::from_cidr(33),
        Err(NetmaskError::MaxCidrExceeded { value: 33 })
    ));
    assert!(matches!(
        SubnetMask::from_cidr(UNDEF_CIDR),
        Err(NetmaskError::UndefinedCidr)
    ));
}

#[test]
fn mask_from_cidr_intermediate_values() {
    let m = SubnetMask::from_cidr(20).unwrap();
    assert_eq!((m.b0, m.b1, m.b2, m.b3), (255, 255, 240, 0));
    assert_eq!(m.to_string(), "255.255.240.0");

    let m = SubnetMask::from_cidr(1).unwrap();
    assert_eq!((m.b0, m.b1, m.b2, m.b3), (128, 0, 0, 0));
}

#[test]
fn network_address_keeps_cidr() {
    let ip = IPAddress::from_str("192.168.1.2/24").unwrap();
    let net = ip.calculate_subnet().unwrap();
    assert_eq!(net.b0, 192);
    assert_eq!(net.b1, 168);
    assert_eq!(net.b2, 1);
    assert_eq!(net.b3, 0);
    assert_eq!(net.cidr, 24);
    assert_eq!(net.to_string(), "192.168.1.0/24");
    // the input is untouched
    assert_eq!(ip.b3, 2);
}

#[test]
fn network_address_errors() {
    let ip = IPAddress::new_without_cidr(192, 168, 1, 2);
    assert!(matches!(
        ip.calculate_subnet(),
        Err(NetmaskError::UndefinedCidr)
    ));

    let ip = IPAddress::new(192, 168, 1, 2, 40);
    assert!(matches!(
        ip.calculate_subnet(),
        Err(NetmaskError::MaxCidrExceeded { value: 40 })
    ));
}

#[test]
fn format_depends_on_fields_only() {
    let parsed = IPAddress::from_str("10.1.2.3/8").unwrap();
    let built = IPAddress::new(10, 1, 2, 3, 8);
    assert_eq!(parsed.to_string(), built.to_string());

    let parsed = IPAddress::from_str("10.1.2.3").unwrap();
    let built = IPAddress::new_without_cidr(10, 1, 2, 3);
    assert_eq!(parsed.to_string(), built.to_string());
}

#[test]
fn bit_count_bounds() {
    assert_eq!(count_set_bits(255, 255, 255, 255), 32);
    assert_eq!(count_set_bits(0, 0, 0, 0), 0);
    assert_eq!(count_set_bits(255, 255, 240, 0), 20);
    assert_eq!(count_set_bits(128, 1, 3, 7), 7);
}

#[test]
fn cidr_token_errors() {
    match IPAddress::from_str("1.2.3.4/x") {
        Err(ParseError::GenericError { position, value }) => {
            assert_eq!(position, "CIDR value");
            assert_eq!(value, "x");
        }
        _ => panic!("expected a parse failure naming the CIDR value"),
    }

    assert!(matches!(
        IPAddress::from_str("1.2.3.4/33"),
        Err(ParseError::MaxCidrExceeded { value: 33 })
    ));
}

#[test]
fn missing_tokens_fail_like_malformed_ones() {
    match IPAddress::from_str("192.168") {
        Err(ParseError::GenericError { position, value }) => {
            assert_eq!(position, "byte 2");
            assert_eq!(value, "");
        }
        _ => panic!("expected a parse failure naming byte 2"),
    }

    match IPAddress::from_str("") {
        Err(ParseError::GenericError { position, value }) => {
            assert_eq!(position, "byte 0");
            assert_eq!(value, "");
        }
        _ => panic!("expected a parse failure naming byte 0"),
    }
}

#[test]
fn out_of_range_octet_is_a_parse_error() {
    match IPAddress::from_str("256.1.1.1") {
        Err(ParseError::GenericError { position, value }) => {
            assert_eq!(position, "byte 0");
            assert_eq!(value, "256");
        }
        _ => panic!("expected a parse failure naming byte 0"),
    }
}

#[test]
fn numeral_forms_the_integer_parser_accepts() {
    // a leading plus sign and leading zeros parse, as u8::from_str takes them
    let ip = IPAddress::from_str("+1.007.0.4").unwrap();
    assert_eq!(ip.b0, 1);
    assert_eq!(ip.b1, 7);
    assert_eq!(ip.b2, 0);
    assert_eq!(ip.b3, 4);
}

#[test]
fn tokens_beyond_the_fifth_are_ignored() {
    let ip = IPAddress::from_str("1.2.3.4/5/6").unwrap();
    assert_eq!(ip.cidr, 5);

    // a dot also introduces the fifth token
    let ip = IPAddress::from_str("1.2.3.4.5").unwrap();
    assert_eq!(ip.cidr, 5);
}

#[test]
fn mask_splits_on_dots_alone() {
    match SubnetMask::from_str("255.255.0.0/24") {
        Err(ParseError::GenericError { position, value }) => {
            assert_eq!(position, "byte 3");
            assert_eq!(value, "0/24");
        }
        _ => panic!("expected a parse failure naming byte 3"),
    }
}

#[test]
fn max_cidr_is_thirty_two() {
    assert_eq!(MAX_CIDR, 32);
    let ip = IPAddress::from_str("1.2.3.4/32").unwrap();
    assert_eq!(ip.cidr, 32);
}
