//! A client library for the Roughtime secure time protocol.

pub mod bytes;
pub mod crypto;
pub mod error;
pub mod keys;
pub mod merkle;
pub mod message;
pub mod request;
pub mod response;
pub mod session;
pub mod tag;
pub mod time;
pub mod version;
