//! The leader of a slot: how it finds out that it is one, and what it sends.

pub mod proof_search;
pub mod proposal;
pub mod step_laws;
pub mod winning_slots;
