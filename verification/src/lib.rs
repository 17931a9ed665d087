//! Decides, from the packets that reach a gateway, whether they are an attack.
//!
//! Three layers: every packet is counted ([`entropy`], [`flows`]); every fifty
//! packets a window closes and its sources are weighed ([`analysis`]); every
//! window is held against what has been normal so far ([`detector`]). What is
//! found goes to stage 2 over a socket ([`ipc`]).
//!
//! Measured numbers are doubles, and the arithmetic on them is the caller's.
//! The library holds them as bits ([`scalar`]), orders them exactly as doubles
//! are ordered, and makes every choice between them.
pub mod address;
pub mod analysis;
pub mod analysis_laws;
pub mod detector;
pub mod detector_laws;
pub mod entropy;
pub mod entropy_laws;
pub mod flows;
pub mod ipc;
pub mod ipc_laws;
pub mod packet;
pub mod scalar;
pub mod scalar_laws;
pub mod tally;
pub mod text;
pub mod text_laws;
pub mod wire;
