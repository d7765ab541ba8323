//! A multi-account proxy that rotates requests over several accounts.
pub mod account_store;
pub mod clock;
pub mod ids;
pub mod json;
pub mod routes;
pub mod seqs;
pub mod server;
pub mod services;
pub mod state;
pub mod text;
