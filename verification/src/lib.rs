//! Resigner: decodes a serialized ledger transaction, decompiles its
//! compiled message into self-describing instructions, and rebuilds one or
//! more fresh transactions under a new fee payer, ready for signing and
//! submission.

pub mod builder;
pub mod codec;
pub mod config;
pub mod envelope;
pub mod decompile;
pub mod error;
pub mod run;
pub mod types;
