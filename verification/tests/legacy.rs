use cczuvpnproto::proxy::service::{classify_header, HeaderAction};

#[test]
fn conv() {
    println!("{}", u16::from_le_bytes([90u8, 200u8]));
    println!("{}", (90u16 & 255) | (200u16 << 8));
    assert_eq!(u16::from_le_bytes([90u8, 200u8]), (90u16 & 255) | (200u16 << 8));
    let header = [1u8, 4, 200, 90, 0, 0, 0, 0];
    assert_eq!(classify_header(&header), HeaderAction::ReadPayload(51290 - 8));
}

use cczuvpnproto::model::ProxyServer;
use cczuvpnproto::proxy::service::{
    copy_server, frame_received, poll_action, receive_failed, PollAction, PollResult, PollTurn, ServiceState,
};

fn server(dns: &str) -> ProxyServer {
    ProxyServer {
        address: "10.0.0.2".to_string(),
        mask: "255.255.255.0".to_string(),
        gateway: "10.0.0.1".to_string(),
        dns: dns.to_string(),
        wins: String::new(),
    }
}

#[test]
fn keepalive_header_is_discarded() {
    assert_eq!(classify_header(&[1, 2, 0, 10, 0, 0, 0, 0]), HeaderAction::DiscardControl);
    assert_eq!(classify_header(&[1, 4, 0, 20, 0, 0, 0, 0]), HeaderAction::ReadPayload(12));
    assert_eq!(classify_header(&[1, 2, 0, 12, 0, 0, 0, 0]), HeaderAction::ReadPayload(4));
}

#[test]
fn poller_decisions() {
    match poll_action(PollResult::Packet(vec![0x45, 0, 0, 20, 1])) {
        PollAction::Deliver { size, data } => {
            assert_eq!(size, 5);
            assert_eq!(data, vec![0x45, 0, 0, 20, 1]);
        }
        _ => panic!("packet not delivered"),
    }
    assert!(matches!(poll_action(PollResult::Packet(vec![3, 0, 0, 0])), PollAction::Heartbeat));
    assert!(matches!(poll_action(PollResult::Packet(vec![9, 9, 9, 9])), PollAction::Heartbeat));
    assert!(matches!(poll_action(PollResult::Packet(vec![3, 1])), PollAction::Heartbeat));
    assert!(matches!(poll_action(PollResult::Idle), PollAction::HeartbeatAndWait));
    match poll_action(PollResult::Failed("closed".to_string())) {
        PollAction::ReportAndStop { data } => assert_eq!(data, b"closed".to_vec()),
        _ => panic!("error not reported"),
    }
}

#[test]
fn received_frames_carry_their_length() {
    assert_eq!(frame_received(&[7, 8, 9]), vec![0, 0, 0, 3, 7, 8, 9]);
    assert_eq!(frame_received(&[]), vec![0, 0, 0, 0]);
    assert_eq!(receive_failed(), vec![0, 0, 0, 0]);
    let big = vec![1u8; 300];
    assert_eq!(&frame_received(&big)[..4], &[0, 0, 1, 44]);
}

#[test]
fn session_lifecycle() {
    let mut state: ServiceState<u32> = ServiceState::new();
    assert!(!state.service_available());
    assert!(state.may_start());
    assert!(!state.stop_service());
    state.attach(7);
    assert!(state.service_available());
    assert!(!state.may_start());
    assert!(state.half_open());
    assert!(state.finish_start(Some(server("1.1.1.1")), "202.195.1.1".to_string()));
    let published = state.proxy_server().unwrap();
    assert_eq!(published.dns, "202.195.1.1");
    assert_eq!(published.address, "10.0.0.2");
    assert!(!state.half_open());
    assert_eq!(state.take_stream(), Some(7));
    assert!(!state.service_available());
    state.restore(7);
    assert!(state.stop_service());
    assert!(!state.service_available());
    assert!(state.proxy_server().is_none());
    assert!(!state.stop_service());
}

#[test]
fn failed_reply_keeps_connection() {
    let mut state: ServiceState<u32> = ServiceState::new();
    state.attach(1);
    assert!(!state.finish_start(None, "x".to_string()));
    assert!(state.service_available());
    assert!(state.proxy_server().is_none());
}

#[test]
fn login_needs_a_gateway() {
    assert!(ServiceState::<u32>::login_for("t".to_string(), "u".to_string(), None).is_none());
    let (frame, dns) =
        ServiceState::<u32>::login_for("t".to_string(), "u".to_string(), Some("9.9.9.9".to_string())).unwrap();
    assert_eq!(dns, "9.9.9.9");
    assert_eq!(frame, vec![1, 1, 0, 21, 0, 0, 0, 0, 1, 0, 0, 0, 1, 0, 1, b'u', 2, 0, 1, b't', 255]);
}

#[test]
fn polling_flags() {
    let mut state: ServiceState<u32> = ServiceState::new();
    assert!(state.keep_polling());
    state.stop_polling_packet();
    assert!(!state.keep_polling());
    state.polling_finished();
    assert!(state.keep_polling());
}

#[test]
fn restarting_a_running_poller_ends_the_session() {
    let mut state: ServiceState<u32> = ServiceState::new();
    state.attach(3);
    state.publish(server("a"), "b".to_string());
    assert!(!state.prepare_polling(false));
    assert!(state.service_available());
    assert!(state.prepare_polling(true));
    assert!(!state.service_available());
    let mut state: ServiceState<u32> = ServiceState::new();
    state.attach(3);
    state.publish(server("a"), "b".to_string());
    state.stop_polling_packet();
    assert!(!state.prepare_polling(true));
    assert!(state.service_available());
}

#[test]
fn copies_are_equal() {
    let s = server("d");
    let c = copy_server(&s);
    assert_eq!(c.dns, s.dns);
    assert_eq!(c.mask, s.mask);
}

#[test]
fn stop_request_ends_the_poller_run() {
    let mut state: ServiceState<u32> = ServiceState::new();
    state.attach(5);
    state.publish(server("a"), "dns".to_string());
    assert_eq!(state.poll_turn(), PollTurn::Read);
    state.stop_polling_packet();
    let stream = state.take_stream().unwrap();
    state.restore(stream);
    assert_eq!(state.poll_turn(), PollTurn::Exit);
    assert!(state.keep_polling());
    assert_eq!(state.proxy_server().unwrap().dns, "dns");
}

#[test]
fn prepare_polling_without_running_poller_keeps_half_open_session() {
    let mut state: ServiceState<u32> = ServiceState::new();
    state.attach(9);
    assert!(!state.finish_start(None, "x".to_string()));
    assert!(!state.prepare_polling(false));
    assert!(state.service_available());
}

#[test]
fn login_without_gateway_ignores_lengths() {
    let long = "t".repeat(70000);
    assert!(ServiceState::<u32>::login_for(long.clone(), long, None).is_none());
}

#[test]
fn recorded_parameters_persist_until_stopped() {
    let mut state: ServiceState<u32> = ServiceState::new();
    state.attach(1);
    assert!(state.finish_start(Some(server("old")), "new".to_string()));
    let s = state.take_stream().unwrap();
    state.stop_polling_packet();
    state.restore(s);
    state.polling_finished();
    assert_eq!(state.proxy_server().unwrap().dns, "new");
    assert!(state.stop_service());
    assert!(state.proxy_server().is_none());
}
