//! What the server decides of a connection: who may enter, what each control message asks for,
//! and which reports of progress become part of the stored save.

pub mod chunks;
pub mod control;
pub mod handshake;
pub mod progress;
pub mod report_laws;
pub mod reports;
