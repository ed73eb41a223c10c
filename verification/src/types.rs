use vstd::prelude::*;

verus! {

/// The tunnel parameters that the server grants after a successful login.
pub struct ProxyServer {
    pub address: String,
    pub mask: String,
    pub gateway: String,
    pub dns: String,
    pub wins: String,
    pub split_tunnel_routes: Vec<String>,
}

/// Options for starting a session.
#[derive(Debug, Clone, Copy)]
pub struct StartOptions {
    /// Accept the server's certificate without checking it.
    pub no_verification: bool,
}

impl Default for StartOptions {
    /// Certificate checking is off unless asked for.
    fn default() -> (r: Self)
        ensures
            r.no_verification,
    {
        Self { no_verification: true }
    }
}

/// Receives the packets that the poller reads from the tunnel; implemented by the
/// embedding application.
pub trait PacketCallback {
    fn on_packet(&self, size: u32, packet: Vec<u8>);
}

} // verus!
