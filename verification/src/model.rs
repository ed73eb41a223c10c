use vstd::prelude::*;

verus! {

/// The tunnel parameters of the legacy session, all in text form.
pub struct ProxyServer {
    pub address: String,
    pub mask: String,
    pub gateway: String,
    pub dns: String,
    pub wins: String,
}

} // verus!
