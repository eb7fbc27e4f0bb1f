//! Discovery of public VPN relay endpoints and the egress addresses they
//! produce: decoding of the relay feed, the verdicts of one verification,
//! the registry of observed addresses and the decisions of the polling loop.

pub mod discovery;
pub mod feed;
pub mod mediawiki;
pub mod pipeline;
pub mod session;
