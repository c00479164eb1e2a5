//! Data plane of a point-to-point VPN tunnel: the wire envelope that carries
//! one encrypted packet over a TCP stream, the table of live peers, and the
//! decisions of the two packet pumps that relay between a TUN device and the
//! peers.

pub mod envelope;
pub mod registry;
pub mod relay;
