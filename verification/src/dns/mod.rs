//! DNS diagnostics: the wire format, encrypted endpoints and the outcomes of
//! resolution attempts.

pub mod endpoint;
pub mod exchange;
pub mod outcome;
pub mod repeat;
pub mod wire;
