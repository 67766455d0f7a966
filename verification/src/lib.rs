//! A verified core for Meshtastic nodes.

pub mod channels;
pub mod config;
pub mod crypto;
pub mod files;
pub mod hal;
pub mod held;
pub mod mesh;
pub mod message;
pub mod module;
pub mod node_info;
pub mod nodedb;
pub mod packet;
pub mod packet_history;
pub mod phone_api;
pub mod proto;
pub mod routing;
pub mod shape;
pub mod sim;
pub mod text;
pub mod text_message;
pub mod wire;
