//! Verified core of a two-hop SOCKS5 relay: the connection state machine,
//! the byte scrambling between hops, the relay buffers, the connection
//! table that pairs and retires connections, and the DNS query/answer
//! handling.
pub mod log;
pub mod ss;
