//! Handshake messages.
pub mod certificate;
pub mod layout;
pub mod theorems;
