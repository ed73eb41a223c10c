use cczuvpnproto::proxy::proto::write as legacy;
use cczuvpnproto::vpn::protocol::write::{heartbeat, AuthorizationPacket, Packet, PacketError, TCPPacket};

#[test]
fn tcp_packet_layout() {
    let data = [9u8, 8, 7];
    let frame = TCPPacket::new(&data).build().unwrap();
    assert_eq!(frame, vec![1, 4, 0, 15, 0, 0, 0, 0, 0, 0, 0, 1, 9, 8, 7]);
}

#[test]
fn tcp_packet_empty_payload() {
    let frame = TCPPacket::new(&[]).build().unwrap();
    assert_eq!(frame, vec![1, 4, 0, 12, 0, 0, 0, 0, 0, 0, 0, 1]);
}

#[test]
fn tcp_packet_largest_and_too_large() {
    let data = vec![0u8; 65535 - 12];
    let frame = TCPPacket::new(&data).build().unwrap();
    assert_eq!(frame.len(), 65535);
    assert_eq!(&frame[..4], &[1, 4, 0xff, 0xff]);
    let data = vec![0u8; 65535 - 11];
    assert_eq!(TCPPacket::new(&data).build(), Err(PacketError::TooLarge));
}

#[test]
fn authorization_packet_layout() {
    let frame = AuthorizationPacket::new("tok".to_string(), "user".to_string()).build().unwrap();
    let mut expected = vec![1, 1, 0, 26, 0, 0, 0, 0, 1, 0, 0, 0, 1, 0, 4];
    expected.extend_from_slice(b"user");
    expected.extend_from_slice(&[2, 0, 3]);
    expected.extend_from_slice(b"tok");
    expected.push(255);
    assert_eq!(frame, expected);
}

#[test]
fn authorization_packet_counts_utf8_bytes() {
    let frame = AuthorizationPacket::new(String::new(), "张".to_string()).build().unwrap();
    assert_eq!(frame[3], 19 + 3);
    assert_eq!(frame[14], 3);
    assert_eq!(&frame[15..18], "张".as_bytes());
}

#[test]
fn authorization_packet_errors() {
    let long = "u".repeat(256);
    assert_eq!(
        AuthorizationPacket::new("t".to_string(), long.clone()).build(),
        Err(PacketError::UserTooLarge)
    );
    assert_eq!(
        AuthorizationPacket::new(long.clone(), "u".to_string()).build(),
        Err(PacketError::TokenTooLarge)
    );
    let huge = "x".repeat(70000);
    assert_eq!(
        AuthorizationPacket::new(huge, "u".to_string()).build(),
        Err(PacketError::TooLarge)
    );
    // Exactly at the 255-byte limits the frame is accepted.
    let at_limit = "v".repeat(255);
    let frame = AuthorizationPacket::new(at_limit.clone(), at_limit).build().unwrap();
    assert_eq!(frame.len(), 19 + 255 + 255);
}

#[test]
fn heartbeat_bytes() {
    assert_eq!(heartbeat(), [1, 1, 0, 12, 0, 0, 0, 0, 3, 0, 0, 0]);
    assert_eq!(legacy::heartbeat(), heartbeat());
}

#[test]
fn legacy_tcp_packet_wraps_length() {
    let data = [5u8, 6];
    assert_eq!(
        legacy::Packet::build(&legacy::TCPPacket::new(&data)),
        vec![1, 4, 0, 14, 0, 0, 0, 0, 0, 0, 0, 1, 5, 6]
    );
    let big = vec![0u8; 65536];
    let frame = legacy::Packet::build(&legacy::TCPPacket::new(&big));
    assert_eq!(&frame[..4], &[1, 4, 0, 12]);
}

#[test]
fn legacy_authorization_packet_wraps_length_bytes() {
    let frame = legacy::Packet::build(&legacy::AuthorizationPacket::new("tok".to_string(), "user".to_string()));
    let current = AuthorizationPacket::new("tok".to_string(), "user".to_string()).build().unwrap();
    assert_eq!(frame, current);
    let user = "u".repeat(300);
    let frame = legacy::Packet::build(&legacy::AuthorizationPacket::new(String::new(), user));
    assert_eq!(frame[14], (300 % 256) as u8);
    assert_eq!(u16::from_be_bytes([frame[2], frame[3]]), 319);
}

#[test]
fn legacy_and_current_data_frames_agree_within_limits() {
    let data = vec![7u8; 1400];
    let current = TCPPacket::new(&data).build().unwrap();
    let old = legacy::Packet::build(&legacy::TCPPacket::new(&data));
    assert_eq!(current, old);
}
