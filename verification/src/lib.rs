//! Zero-copy extraction of the Server Name Indication hostname from a TLS
//! ClientHello held in a single in-memory byte buffer.
//!
//! The decoder walks the TLS record layer and the ClientHello handshake
//! message as a chain of borrowed sub-slices of the caller's buffer, and
//! either returns the hostname (or its explicit absence) or one of the
//! named decode errors. It never panics, never allocates, and never copies
//! the buffer.

pub mod error;
pub mod slicer;
pub mod hostname;
pub mod tls;
pub mod laws;
