//! Verified core of the Logos blockchain.
pub mod blend;
pub mod crypto;
pub mod leader;
pub mod mantle;
pub mod sdp;
pub mod utils;
