//! The operations on declarations of services.

pub mod declare;
