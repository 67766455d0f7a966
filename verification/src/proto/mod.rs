//! The messages of the mesh protocol.
//!
//! Each message type is a struct over the types `B` of byte strings and `S` of
//! texts that its fields hold. `Data`, for example, is `DataOf<Vec<u8>>`, and
//! its view is `DataOf<Seq<u8>>`.

pub mod channel;
pub mod config;
pub mod layout;
pub mod node;
pub mod packet;
pub mod phone;
pub mod ports;
pub mod stored;
