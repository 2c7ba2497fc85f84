//! A chat bot core for the chatango protocol: server selection, frame
//! building, packet decoding and the command state machine.

pub mod bakery;
pub mod bindings;
pub mod laws;
pub mod protocol;
pub mod server;
pub mod text;
