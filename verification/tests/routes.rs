use cczuvpnproto::route::{
    parse_prefix_length, route_command_args, RouteVerb,
    finish_split_tunnel_route, normalize_network, plan_split_tunnel_routes, prefix_to_netmask,
    rollback_order, split_route, IpText, RouteError, SuffixText, WindowsRoute,
};

fn text(route: &str) -> (String, Option<String>) {
    let t = split_route(route).unwrap();
    (t.address, t.suffix)
}

#[test]
fn prefix_masks() {
    assert_eq!(prefix_to_netmask(0), Ok(0));
    assert_eq!(prefix_to_netmask(1), Ok(0x8000_0000));
    assert_eq!(prefix_to_netmask(24), Ok(0xFFFF_FF00));
    assert_eq!(prefix_to_netmask(32), Ok(0xFFFF_FFFF));
    assert_eq!(prefix_to_netmask(33), Err(RouteError::InvalidPrefix(33)));
}

#[test]
fn network_address() {
    assert_eq!(normalize_network(0x0A00_0105, 0xFFFF_FF00), 0x0A00_0100);
}

#[test]
fn split_rule_texts() {
    assert_eq!(text("10.1.0.0/16"), ("10.1.0.0".to_string(), Some("16".to_string())));
    assert_eq!(text("  10.1.2.3  "), ("10.1.2.3".to_string(), None));
    assert_eq!(text("tcp; 10.2.0.0/255.255.0.0 ;443"), ("10.2.0.0".to_string(), Some("255.255.0.0".to_string())));
    assert_eq!(text("a/b/c"), ("a".to_string(), Some("b/c".to_string())));
    assert!(matches!(split_route("   "), Err(RouteError::Empty)));
    assert!(matches!(split_route("tcp;10.0.0.0"), Err(RouteError::Format)));
    assert!(matches!(split_route("a;b;c;d"), Err(RouteError::Format)));
}

#[test]
fn finish_rules() {
    let v4 = IpText::V4(0x0A01_0203);
    assert_eq!(
        finish_split_tunnel_route(v4, Some(SuffixText { prefix: Some(16), netmask: None })),
        Ok(Some(WindowsRoute { destination: 0x0A01_0000, netmask: 0xFFFF_0000 }))
    );
    assert_eq!(
        finish_split_tunnel_route(v4, Some(SuffixText { prefix: None, netmask: Some(0xFFFF_FF00) })),
        Ok(Some(WindowsRoute { destination: 0x0A01_0200, netmask: 0xFFFF_FF00 }))
    );
    assert_eq!(
        finish_split_tunnel_route(v4, None),
        Ok(Some(WindowsRoute { destination: 0x0A01_0203, netmask: 0xFFFF_FFFF }))
    );
    assert_eq!(
        finish_split_tunnel_route(v4, Some(SuffixText { prefix: Some(40), netmask: None })),
        Err(RouteError::InvalidPrefix(40))
    );
    assert_eq!(
        finish_split_tunnel_route(v4, Some(SuffixText { prefix: None, netmask: None })),
        Err(RouteError::InvalidMask)
    );
    assert_eq!(finish_split_tunnel_route(IpText::V6, None), Ok(None));
    assert_eq!(
        finish_split_tunnel_route(IpText::V6, Some(SuffixText { prefix: None, netmask: None })),
        Ok(None)
    );
    assert_eq!(finish_split_tunnel_route(IpText::Invalid, None), Err(RouteError::InvalidHost));
    assert_eq!(
        finish_split_tunnel_route(IpText::Invalid, Some(SuffixText { prefix: Some(8), netmask: None })),
        Err(RouteError::InvalidAddress)
    );
}

#[test]
fn plans_are_sorted_deduplicated_and_skip_local() {
    let a = WindowsRoute { destination: 0x0A00_0000, netmask: 0xFF00_0000 };
    let b = WindowsRoute { destination: 0x0A00_0000, netmask: 0xFFFF_0000 };
    let c = WindowsRoute { destination: 0xC0A8_0000, netmask: 0xFFFF_0000 };
    let local = WindowsRoute { destination: 0xAC10_0000, netmask: 0xFFFF_0000 };
    let parsed = vec![Ok(Some(c)), Ok(None), Ok(Some(b)), Ok(Some(local)), Ok(Some(a)), Ok(Some(c)), Ok(None)];
    let (routes, skipped) = plan_split_tunnel_routes(&parsed, local).unwrap();
    assert_eq!(routes, vec![a, b, c]);
    assert_eq!(skipped, 2);
    let reordered = vec![Ok(Some(a)), Ok(Some(c)), Ok(Some(b))];
    assert_eq!(plan_split_tunnel_routes(&reordered, local).unwrap().0, routes);
    let failing = vec![Ok(Some(a)), Err(RouteError::Format), Err(RouteError::Empty)];
    assert_eq!(plan_split_tunnel_routes(&failing, local), Err(RouteError::Format));
}

#[test]
fn rollback_is_reverse() {
    let a = WindowsRoute { destination: 1, netmask: 2 };
    let b = WindowsRoute { destination: 3, netmask: 4 };
    assert_eq!(rollback_order(&vec![a, b]), vec![b, a]);
    assert!(rollback_order(&vec![]).is_empty());
}

#[test]
fn prefix_length_text() {
    assert_eq!(parse_prefix_length("24"), Some(24));
    assert_eq!(parse_prefix_length("+8"), Some(8));
    assert_eq!(parse_prefix_length("007"), Some(7));
    assert_eq!(parse_prefix_length("255"), Some(255));
    assert_eq!(parse_prefix_length("256"), None);
    assert_eq!(parse_prefix_length(""), None);
    assert_eq!(parse_prefix_length("+"), None);
    assert_eq!(parse_prefix_length("-1"), None);
    assert_eq!(parse_prefix_length("255.255.0.0"), None);
    assert_eq!(parse_prefix_length(" 8"), None);
    for text in ["0", "32", "+32", "99999", "1a", "٣"] {
        assert_eq!(parse_prefix_length(text), text.parse::<u8>().ok(), "{text}");
    }
}

#[test]
fn route_command_arguments() {
    let route = WindowsRoute { destination: 0x0A01_0000, netmask: 0xFFFF_0000 };
    assert_eq!(
        route_command_args(RouteVerb::Add, route, 0xAC10_0001, 17),
        vec!["ADD", "10.1.0.0", "MASK", "255.255.0.0", "172.16.0.1", "IF", "17"]
    );
    assert_eq!(
        route_command_args(RouteVerb::Delete, route, 0, 4_294_967_295),
        vec!["DELETE", "10.1.0.0", "MASK", "255.255.0.0", "0.0.0.0", "IF", "4294967295"]
    );
}
