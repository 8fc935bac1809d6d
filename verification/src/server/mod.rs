//! The server's rules.

pub mod auth;
pub mod chat;
pub mod collision;
pub mod collision_laws;
pub mod config;
pub mod db;
pub mod deadman;
pub mod deadman_laws;
pub mod economy;
pub mod economy_laws;
pub mod http;
pub mod instances;
pub mod irc;
pub mod line_laws;
pub mod quest_flags;
pub mod quic;
pub mod rates;
pub mod rule_laws;
pub mod save_parse;
pub mod tls;
pub mod world;
pub mod world_items;
pub mod world_laws;
