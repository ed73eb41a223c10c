pub mod write;
pub mod stream;
pub mod read;
