//! An intercepting reverse proxy for a length-prefixed game-server protocol,
//! written without I/O: callers feed it the bytes they read and perform the
//! actions it hands back.

pub mod codec;
pub mod console;
pub mod decoder;
pub mod encoder;
pub mod file;
pub mod guardian;
pub mod interceptor;
pub mod json;
pub mod macros;
pub mod packet;
pub mod ping_cache;
pub mod registry;
pub mod session;
pub mod text;
pub mod var_int;
