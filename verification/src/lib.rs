//! A stateless gateway core for a legacy cookie-stateful SOAP student
//! information service: an authenticated session-token codec, the SOAP
//! envelope protocol with its upstream error classification, and the
//! gradebook response transformer.

pub mod api;
pub mod base64;
pub mod crypto;
pub mod numeric;
pub mod text;
