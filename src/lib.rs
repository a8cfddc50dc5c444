//! Relay of multicast service-discovery frames between two network segments.
//!
//! The library holds the logic of the relay: layered decoding of captured
//! link-layer frames and the domain filter (`filter`), the length-delimited
//! framing of the tunnel byte stream (`framing`), and the per-connection relay
//! state machine (`relay`). The link, network and transport headers are read
//! in `layers`.
pub mod layers;
pub mod filter;
pub mod framing;
pub mod relay;
