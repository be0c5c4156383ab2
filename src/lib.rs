//! A deterministic simulated connection-oriented network with fault injection,
//! and a tagged streaming channel layered on a tag-addressed endpoint.
pub mod netsim;
pub mod tcp;
pub mod streaming;
pub mod laws;
