//! Verified core of a command-line client for the SRUN campus-network portal.
//!
//! The portal's login protocol encrypts the user's credentials with an
//! XXTEA-like block mixer, encodes them with a shuffled base64 alphabet and
//! signs the request with HMAC-MD5 and SHA-1.  Each step lives in its own
//! module, with its contract stated over the mathematical model of the data.

pub mod xencode;
pub mod base64;
pub mod hex;
pub mod hmac;
pub mod format;
pub mod response;
pub mod state;
pub mod config;
pub mod portal;
