//! Client-side tunnel core: the decisions that sit between the virtual network
//! interface, the encrypted peer connections and the split-horizon DNS
//! resolver, stated as contracts and proved.

pub mod checksum;
pub mod client;
pub mod control;
pub mod dns;
pub mod error;
pub mod ip;
pub mod matching;
pub mod message;
pub mod messages;
pub mod name;
pub mod packet;
pub mod peer;
pub mod ptr;
pub mod resources;
pub mod reverse;
pub mod search;
pub mod sentinel;
pub mod text;
pub mod tunnel;
pub mod upstream;
