//! Rules and codecs of a shared-world game server and its local sidecar.

pub mod bytes;
pub mod net;
pub mod proto;
pub mod server;
pub mod single;
pub mod single_laws;
pub mod text;
pub mod text_laws;
