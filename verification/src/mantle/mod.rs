//! The mantle ledger: notes, channels and the operations on them.
pub mod backing;
pub mod channel;
pub mod codec;
pub mod effect_laws;
pub mod frozen_notes;
pub mod layout_laws;
pub mod ledger;
pub mod ledger_laws;
pub mod maps;
pub mod mint;
pub mod mint_laws;
pub mod minting_run_laws;
pub mod multisig;
pub mod operation_laws;
pub mod ops;
pub mod primitives;
pub mod reading_laws;
pub mod record_laws;
pub mod release;
pub mod release_laws;
pub mod turn_laws;
pub mod validity_laws;
