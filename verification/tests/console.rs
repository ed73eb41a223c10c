use cczuvpnproto::cli::{
    confirm_continue, credential_from_arg, prompt_answer, required_input, resolve_credentials, tun_step,
    TunRead, TunStep,
};
use cczuvpnproto::text::format_dotted_quad;

#[test]
fn confirmation_answers() {
    assert!(!confirm_continue("n"));
    assert!(!confirm_continue("  N \n"));
    assert!(confirm_continue("y"));
    assert!(confirm_continue(""));
    assert!(confirm_continue("no"));
}

#[test]
fn prompts_and_credentials() {
    assert_eq!(prompt_answer("  alice \r\n"), "alice");
    assert_eq!(required_input(String::new()), None);
    assert_eq!(required_input("x".to_string()), Some("x".to_string()));
    assert_eq!(credential_from_arg(Some("  bob ")), Some("bob".to_string()));
    assert_eq!(credential_from_arg(Some("   ")), None);
    assert_eq!(credential_from_arg(None), None);
    assert_eq!(resolve_credentials(Some("u"), Some(" ")), (Some("u".to_string()), None));
}

#[test]
fn forwarding_steps() {
    assert_eq!(tun_step(TunRead::Packet(60), false), TunStep::Forward(60));
    assert_eq!(tun_step(TunRead::Interrupted, true), TunStep::Stop);
    assert_eq!(tun_step(TunRead::Interrupted, false), TunStep::Retry);
    assert_eq!(tun_step(TunRead::Failed, true), TunStep::Fail);
}

#[test]
fn dotted_quads() {
    assert_eq!(format_dotted_quad(&[0, 9, 10, 255]), "0.9.10.255");
    assert_eq!(format_dotted_quad(&[100, 199, 200, 1]), "100.199.200.1");
}

#[test]
fn start_options_default_skips_verification() {
    let options: cczuvpnproto::types::StartOptions = Default::default();
    assert!(options.no_verification);
}

#[test]
fn blank_answers_and_unicode_white_space() {
    assert_eq!(prompt_answer("\u{3000}\u{a0} bob\u{2009}\n"), "bob");
    assert_eq!(prompt_answer(" \t\r\n"), "");
    assert_eq!(credential_from_arg(Some("\u{85}\u{2028}")), None);
}
