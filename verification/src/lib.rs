//! A MessagePack packer and unpacker working on byte buffers, with sticky
//! error codes, optional overflow/underflow handlers and a compatibility
//! mode for the pre-2013 MessagePack format.
pub mod types;
pub mod bytes;
pub mod format;
pub mod pack;
pub mod decode;
pub mod unpack;
pub mod laws;
pub mod layout;
