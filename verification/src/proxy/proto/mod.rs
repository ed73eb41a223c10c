pub mod write;
pub mod read;
