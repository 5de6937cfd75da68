//! The operations on channels.

pub mod config;
pub mod deposit;
pub mod withdraw;
