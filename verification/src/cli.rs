//! The decisions of the command-line client about what the user typed.
use vstd::prelude::*;
use crate::text::{chars_of, lowercase, lowercase_text, trim_text, trimmed_text};

verus! {

/// A console answer as the client keeps it: trimmed.
pub fn prompt_answer(raw: &str) -> (r: String)
    ensures
        r@ == trimmed_text(raw@),
{
    trim_text(raw).to_owned()
}

/// A required answer is accepted once it is not empty; `None` asks again.
pub fn required_input(value: String) -> (r: Option<String>)
    ensures
        value@.len() == 0 ==> r is None,
        value@.len() > 0 ==> r == Some(value),
{
    if value.as_str().is_empty() {
        None
    } else {
        Some(value)
    }
}

/// A credential given on the command line, trimmed, unless it is blank; `None`
/// means the client has to ask for it.
pub fn credential_from_arg(arg: Option<&str>) -> (r: Option<String>)
    ensures
        match arg {
            Some(a) => if trimmed_text(a@).len() > 0 {
                r matches Some(s) && s@ == trimmed_text(a@)
            } else {
                r is None
            },
            None => r is None,
        },
{
    match arg {
        Some(a) => {
            let t = trim_text(a);
            if t.is_empty() {
                None
            } else {
                Some(t.to_owned())
            }
        },
        None => None,
    }
}

/// The user name and password given on the command line, each kept only when not blank.
pub fn resolve_credentials(user: Option<&str>, password: Option<&str>) -> (r: (Option<String>, Option<String>))
    ensures
        match user {
            Some(a) => if trimmed_text(a@).len() > 0 {
                r.0 matches Some(s) && s@ == trimmed_text(a@)
            } else {
                r.0 is None
            },
            None => r.0 is None,
        },
        match password {
            Some(a) => if trimmed_text(a@).len() > 0 {
                r.1 matches Some(s) && s@ == trimmed_text(a@)
            } else {
                r.1 is None
            },
            None => r.1 is None,
        },
{
    (credential_from_arg(user), credential_from_arg(password))
}

/// Whether the user chose to go on: every answer but `n` (after trimming and
/// lower-casing) means yes.
pub fn confirm_continue(answer: &str) -> (r: bool)
    ensures
        r == (lowercase_text(trimmed_text(answer@)) != seq!['n']),
{
    let lowered = lowercase(trim_text(answer));
    let cs = chars_of(lowered.as_str());
    let is_no = cs.len() == 1 && cs[0] == 'n';
    assert(is_no == (cs@ =~= seq!['n']));
    !is_no
}

/// What one read from the TUN device gave.
#[derive(Debug, Clone, Copy, PartialEq, Eq, Structural)]
pub enum TunRead {
    /// A packet of this many bytes.
    Packet(usize),
    /// The read was interrupted.
    Interrupted,
    /// The read failed otherwise.
    Failed,
}

/// What the forwarding loop does next.
#[derive(Debug, Clone, Copy, PartialEq, Eq, Structural)]
pub enum TunStep {
    /// Send the packet of this many bytes through the tunnel.
    Forward(usize),
    /// Leave the loop cleanly.
    Stop,
    /// Read again.
    Retry,
    /// Leave the loop with the read error.
    Fail,
}

/// Decides the forwarding loop's next step: an interruption ends the loop when a
/// shutdown was requested and is retried otherwise.
pub fn tun_step(read: TunRead, shutdown_requested: bool) -> (r: TunStep)
    ensures
        read matches TunRead::Packet(n) ==> r == TunStep::Forward(n),
        read is Interrupted && shutdown_requested ==> r is Stop,
        read is Interrupted && !shutdown_requested ==> r is Retry,
        read is Failed ==> r is Fail,
{
    match read {
        TunRead::Packet(n) => TunStep::Forward(n),
        TunRead::Interrupted => if shutdown_requested {
            TunStep::Stop
        } else {
            TunStep::Retry
        },
        TunRead::Failed => TunStep::Fail,
    }
}

} // verus!
