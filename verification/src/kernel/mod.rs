//! What the shell needs to know of the system it runs on.

pub mod common;
pub mod linux;
