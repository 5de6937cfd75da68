//! The Blend network: the messages that its nodes pass on, and the nodes' part
//! in it.

pub mod edge;
pub mod epoch;
pub mod leader_proofs;
pub mod member_laws;
pub mod message;
pub mod message_cache;
pub mod message_laws;
pub mod session_message;
