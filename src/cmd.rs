//! Typed AT commands: how each is built, and what its reply means.
pub mod network;
pub mod sms;
