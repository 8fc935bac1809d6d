//! The sidecar's rules.

pub mod browser;
pub mod ghost;
pub mod ipc;
pub mod option_laws;
pub mod relay_laws;
pub mod session;
pub mod settings;
pub mod token;
