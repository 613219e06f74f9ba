//! A memcached-style cache served from an XDP packet program: the wire
//! format, the per-packet decisions and the header rewrite, with their proofs.

pub mod cache;
pub mod protocol;
pub mod server;
pub mod packet;
pub mod xdp;
