//! Core of a local-network input-event streaming service: a wire codec for
//! input events, a fan-out hub that decouples one producer from many
//! subscribers at different consumption speeds, and the per-connection
//! framing and session logic.

pub mod codec;
pub mod hub;
pub mod session;
