//! Framing, message decoding, device selection and command dispatch for a
//! controller of attached embedded-development boards.
pub mod frame;
pub mod decoder;
pub mod message;
pub mod device;
pub mod dispatch;
pub mod command;
pub mod session;
