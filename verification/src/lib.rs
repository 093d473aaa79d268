//! A small key-value store that speaks a line-and-length framed wire protocol:
//! the frame grammar with its decoder and encoder, the cursor over a request's
//! arguments, the buffer that turns a byte stream into frames, the store and
//! the shutdown flag.

pub mod frame;
pub mod wire;
pub mod cursor;
pub mod codec;
pub mod parse;
pub mod conn;
pub mod shutdown;
pub mod kv;
pub mod laws;
pub mod command;
pub mod server;
