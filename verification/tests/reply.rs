use cczuvpnproto::proxy::proto::read as legacy;
use cczuvpnproto::vpn::protocol::read::{consume_authization, parse_reply, AuthParse, ReplyError, ReplyStep};

fn answer() -> Vec<u8> {
    let mut a = vec![0u8; 10];
    a.extend_from_slice(&[0, 0]);
    a.extend_from_slice(&[11, 0, 4, 10, 0, 0, 2]);
    a.extend_from_slice(&[12, 0, 4, 255, 255, 255, 0]);
    a.extend_from_slice(&[35, 0, 4, 10, 0, 0, 1]);
    a.extend_from_slice(&[36, 0, 7]);
    a.extend_from_slice(b"8.8.8.8");
    a.extend_from_slice(&[37, 0, 0]);
    a.extend_from_slice(&[43, 0, 1, 2, 255]);
    a
}

#[test]
fn full_answer() {
    let a = answer();
    match consume_authization(&a) {
        AuthParse::Done { server, consumed } => {
            assert_eq!(consumed, a.len());
            assert_eq!(server.address, "10.0.0.2");
            assert_eq!(server.mask, "255.255.255.0");
            assert_eq!(server.gateway, "10.0.0.1");
            assert_eq!(server.dns, "8.8.8.8");
            assert_eq!(server.wins, "");
            assert!(server.split_tunnel_routes.is_empty());
        }
        _ => panic!("answer not parsed"),
    }
}

#[test]
fn byte_by_byte_stops_at_trailer() {
    let mut a = answer();
    let end = a.len();
    a.extend_from_slice(&[1, 4, 0, 12]);
    for k in 0..end {
        assert!(matches!(consume_authization(&a[..k]), AuthParse::Incomplete), "prefix {k}");
    }
    match consume_authization(&a) {
        AuthParse::Done { consumed, .. } => assert_eq!(consumed, end),
        _ => panic!("answer not parsed"),
    }
}

#[test]
fn defaults_without_optional_fields() {
    let mut a = vec![0u8; 12];
    a.extend_from_slice(&[11, 0, 4, 172, 16, 0, 9, 12, 0, 4, 255, 255, 0, 0, 43, 7, 255]);
    match consume_authization(&a) {
        AuthParse::Done { server, consumed } => {
            assert_eq!(consumed, a.len());
            assert_eq!(server.address, "172.16.0.9");
            assert_eq!(server.mask, "255.255.0.0");
            assert_eq!(server.gateway, "0.0.0.0");
            assert_eq!(server.dns, "");
        }
        _ => panic!("answer not parsed"),
    }
}

#[test]
fn later_fields_replace_earlier_ones() {
    let mut a = vec![0u8; 12];
    a.extend_from_slice(&[11, 0, 4, 1, 2, 3, 4, 12, 0, 4, 255, 0, 0, 0]);
    a.extend_from_slice(&[36, 0, 1, b'a', 36, 0, 1, b'b', 43, 0, 255]);
    match consume_authization(&a) {
        AuthParse::Done { server, .. } => assert_eq!(server.dns, "b"),
        _ => panic!("answer not parsed"),
    }
}

fn failure(a: &[u8]) -> ReplyError {
    match consume_authization(a) {
        AuthParse::Failed(e) => e,
        _ => panic!("expected a failure"),
    }
}

#[test]
fn refused_answers() {
    let mut a = vec![0u8; 10];
    a.extend_from_slice(&[0, 1]);
    assert_eq!(failure(&a), ReplyError::Rejected(0, 1));

    let mut a = vec![0u8; 12];
    a.extend_from_slice(&[11, 0, 5]);
    assert_eq!(failure(&a), ReplyError::AddressTag(11, 0, 5));

    let mut a = vec![0u8; 12];
    a.extend_from_slice(&[11, 0, 4, 1, 1, 1, 1, 13, 0, 4]);
    assert_eq!(failure(&a), ReplyError::MaskTag(13, 0, 4));

    let mut base = vec![0u8; 12];
    base.extend_from_slice(&[11, 0, 4, 1, 1, 1, 1, 12, 0, 4, 255, 0, 0, 0]);

    let mut a = base.clone();
    a.extend_from_slice(&[35, 0, 5]);
    assert_eq!(failure(&a), ReplyError::GatewayLength(5));

    let mut a = base.clone();
    a.extend_from_slice(&[36, 0, 2, 0xff, 0xfe]);
    assert_eq!(failure(&a), ReplyError::DnsEncoding);

    let mut a = base.clone();
    a.extend_from_slice(&[37, 0, 1, 0x80]);
    assert_eq!(failure(&a), ReplyError::WinsEncoding);

    let mut a = base.clone();
    a.extend_from_slice(&[38, 0]);
    assert_eq!(failure(&a), ReplyError::FieldTag(38, 0));

    let mut a = base;
    a.extend_from_slice(&[35, 1]);
    assert_eq!(failure(&a), ReplyError::FieldTag(35, 1));
}

#[test]
fn legacy_grammar_takes_long_gateway() {
    let mut a = vec![0u8; 12];
    a.extend_from_slice(&[11, 0, 4, 1, 2, 3, 4, 12, 0, 4, 255, 255, 255, 0]);
    a.extend_from_slice(&[35, 0, 6, 9, 8, 7, 6, 5, 4, 43, 0, 255]);
    assert_eq!(failure(&a), ReplyError::GatewayLength(6));
    match legacy::consume_authization(&a) {
        legacy::LegacyAuthParse::Done { server, consumed } => {
            assert_eq!(consumed, a.len());
            assert_eq!(server.gateway, "9.8.7.6");
            assert_eq!(server.address, "1.2.3.4");
            // The legacy prefix computation turns 255.255.255.0 into a full mask.
            assert_eq!(server.mask, "255.255.255.255");
        }
        _ => panic!("answer not parsed"),
    }
}

#[test]
fn legacy_short_gateway_is_reported() {
    let mut a = vec![0u8; 12];
    a.extend_from_slice(&[11, 0, 4, 1, 2, 3, 4, 12, 0, 4, 255, 255, 255, 0]);
    a.extend_from_slice(&[35, 0, 2, 9, 8]);
    assert!(matches!(parse_reply(&a, true), ReplyStep::ShortGateway(2)));
}

#[test]
fn legacy_mask_prefix() {
    assert_eq!(legacy::legacy_mask(&[240, 0, 0, 0]), [255, 255, 0, 0]);
    assert_eq!(legacy::legacy_mask(&[0, 0, 0, 0]), [0, 0, 0, 0]);
    assert_eq!(legacy::legacy_mask(&[128, 0, 0, 0]), [240, 0, 0, 0]);
    assert_eq!(legacy::legacy_mask(&[255, 255, 255, 0]), [255, 255, 255, 255]);
    assert_eq!(legacy::legacy_mask(&[0, 0, 0, 1]), [128, 0, 0, 0]);
}
