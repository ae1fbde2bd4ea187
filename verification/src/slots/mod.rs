pub mod log;
pub mod ping;
