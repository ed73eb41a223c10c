//! Wire protocol, session bookkeeping and route planning of the CCZU WebVPN
//! tunnel client, with their contracts proved by Verus.
pub mod wire;
pub mod text;
pub mod types;
pub mod model;
pub mod ffi;
pub mod vpn;
pub mod proxy;
pub mod route;
pub mod cli;
