use vstd::prelude::*;

verus! {

/// The tunnel parameters with the IPv4 fields as raw octets.
pub struct ProxyServer {
    pub address: [u8; 4],
    pub mask: [u8; 4],
    pub gateway: [u8; 4],
    pub dns: String,
    pub wins: String,
}

} // verus!
