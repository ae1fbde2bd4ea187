pub mod packet;
pub mod task;
pub mod rotary;
pub mod rack;
pub mod slot;
pub mod error;
pub mod config;
pub mod device;
pub mod slots;
pub mod runner;
pub mod cli;
