//! Client-side protocol layer for the Nitro Secure Module.
//!
//! The crate holds the wire schema of the module's requests and responses,
//! a CBOR codec for it whose behaviour is stated and proved over byte
//! sequences, and the decisions of one request/response exchange with the
//! device. Opening the device and the device-control call itself are left to
//! the caller.

pub mod api;
pub mod cbor;
pub mod codec;
pub mod driver;
pub mod harness;
pub mod lists;
pub mod round_trip;
pub mod schema;
pub mod truncation;
