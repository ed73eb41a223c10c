pub mod proto;
pub mod service;
