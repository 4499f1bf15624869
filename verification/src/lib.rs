//! A verified client core for a cryptocurrency exchange's wallet REST
//! endpoints: parameter-set construction, signed-request payloads, and
//! decoding of JSON response bodies into typed records.
//!
//! The cryptographic MAC and the HTTP transport themselves are outside
//! collaborators; this crate produces the exact payload text a signer
//! must authenticate and consumes the body a transport hands back.

pub mod decode;
pub mod errors;
pub mod json;
pub mod model;
pub mod params;
pub mod savings;
pub mod sign;
pub mod text;
