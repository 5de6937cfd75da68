//! Building blocks that carry no ledger rules of their own.
pub mod bounded;
pub mod hex;
