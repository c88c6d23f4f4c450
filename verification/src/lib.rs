//! A minimal server-side relay that completes an OAuth authorization-code
//! exchange on behalf of a client application, so that the client secret never
//! has to be embedded in browser- or device-side code.
//!
//! The library holds everything that can be stated and proved: configuration
//! validation, construction of the upstream token request, parsing of the
//! provider's JSON reply, and the shaping of every caller-facing response
//! (including the permissive CORS headers). The thin program around it only
//! reads the environment, listens for connections and performs the one
//! outbound POST per request.

pub mod config;
pub mod http;
pub mod json;
pub mod query;
pub mod token;
