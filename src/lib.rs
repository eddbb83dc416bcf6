//! A client for the memcached key/value cache: the text and binary wire
//! protocols, key routing across servers, and endpoint configuration.
pub mod ascii;
pub mod binary;
pub mod client;
pub mod datagram;
pub mod endpoint;
pub mod error;
pub mod router;
pub mod text;
