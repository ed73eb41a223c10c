use cczuvpnproto::vpn::protocol::stream::{
    FrameBuffer, FrameError, FrameStep, InboundFrame, InboundFrameHeader, InboundFrameKind,
};
use cczuvpnproto::vpn::protocol::write::{heartbeat, Packet, TCPPacket};

#[test]
fn kind_from_wire() {
    assert_eq!(InboundFrameKind::from_wire(2), InboundFrameKind::Control);
    assert_eq!(InboundFrameKind::from_wire(4), InboundFrameKind::Data);
    assert_eq!(InboundFrameKind::from_wire(7), InboundFrameKind::Unknown(7));
}

#[test]
fn header_parse() {
    let h = InboundFrameHeader::parse(&[1, 4, 0x01, 0x02, 9, 8, 7, 6]).unwrap();
    assert_eq!(h.version, 1);
    assert_eq!(h.kind, InboundFrameKind::Data);
    assert_eq!(h.total_len, 258);
    assert_eq!(h.xid, [9, 8, 7, 6]);
    assert!(!h.is_control_frame());
    assert_eq!(
        InboundFrameHeader::parse(&[2, 4, 0, 20, 0, 0, 0, 0]),
        Err(FrameError::InvalidVersion(2))
    );
    assert_eq!(
        InboundFrameHeader::parse(&[1, 4, 0, 7, 0, 0, 0, 0]),
        Err(FrameError::InvalidLength(7))
    );
}

#[test]
fn control_frames() {
    for (len, control) in [(10u8, true), (12, true), (11, false), (20, false)] {
        let h = InboundFrameHeader::parse(&[1, 2, 0, len, 0, 0, 0, 0]).unwrap();
        assert_eq!(h.is_control_frame(), control);
    }
    let h = InboundFrameHeader::parse(&[1, 4, 0, 10, 0, 0, 0, 0]).unwrap();
    assert!(!h.is_control_frame());
}

#[test]
fn buffer_reassembles_frames() {
    let mut buf = FrameBuffer::new();
    assert!(matches!(buf.next_frame(), FrameStep::NeedHeader));
    let data = [0x45u8, 0, 0, 20];
    let frame = TCPPacket::new(&data).build().unwrap();
    buf.extend(&frame[..5]);
    assert!(matches!(buf.next_frame(), FrameStep::NeedHeader));
    buf.extend(&frame[5..10]);
    match buf.next_frame() {
        FrameStep::NeedBody(n) => assert_eq!(n, 16),
        other => panic!("unexpected {other:?}"),
    }
    buf.extend(&frame[10..]);
    buf.extend(&[1, 2, 0, 10, 0, 0, 0, 0, 0xaa, 0xbb, 7]);
    match buf.next_frame() {
        FrameStep::Frame(InboundFrame::Data { header, payload }) => {
            assert_eq!(header.kind, InboundFrameKind::Data);
            assert_eq!(header.total_len, 16);
            assert_eq!(payload, vec![0, 0, 0, 1, 0x45, 0, 0, 20]);
        }
        other => panic!("unexpected {other:?}"),
    }
    match buf.next_frame() {
        FrameStep::Frame(InboundFrame::Control { header, payload }) => {
            assert_eq!(header.total_len, 10);
            assert_eq!(payload, vec![0xaa, 0xbb]);
        }
        other => panic!("unexpected {other:?}"),
    }
    assert_eq!(buf.len(), 1);
}

#[test]
fn buffer_reports_invalid_header_without_consuming() {
    let mut buf = FrameBuffer::new();
    buf.extend(&[3, 4, 0, 12, 0, 0, 0, 0, 1, 2, 3, 4]);
    assert!(matches!(buf.next_frame(), FrameStep::Invalid(FrameError::InvalidVersion(3))));
    assert_eq!(buf.len(), 12);
}

#[test]
fn heartbeat_echo_is_a_data_frame() {
    let mut buf = FrameBuffer::new();
    buf.extend(&heartbeat());
    match buf.next_frame() {
        FrameStep::Frame(InboundFrame::Data { header, payload }) => {
            assert_eq!(header.kind, InboundFrameKind::Unknown(1));
            assert_eq!(payload, vec![3, 0, 0, 0]);
        }
        other => panic!("unexpected {other:?}"),
    }
}
