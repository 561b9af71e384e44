//! The client generator's own rules: what it writes into the crate's
//! manifest, and how it names and shapes what it emits.

pub mod envelope;
pub mod manifest;
pub mod methods;
pub mod names;
pub mod operation;
pub mod output;
pub mod paths;
pub mod schemas;
