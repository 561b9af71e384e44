//! Canopy's decision logic: the safety-mode ladder, the relay's cluster
//! checks, the client's request plumbing and the generator's text rules.

pub mod safety;
pub mod servers;
pub mod session;
pub mod text;
pub mod client;
pub mod artifacts;
pub mod assoc;
pub mod enforcement;
pub mod codegen;
pub mod fleet;
pub mod json;
pub mod relay;
pub mod reporting;
pub mod status;
