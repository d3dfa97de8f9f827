//! Coordinator-side logic for managing per-site access tokens through a
//! message broker: building fan-out tasks, decoding the per-site replies that
//! stream back, folding them under one of three aggregation policies, and the
//! decisions each operation takes on the folded outcome.
pub mod aggregate;
pub mod crypto;
pub mod decode;
pub mod dispatch;
pub mod enums;
pub mod errors;
pub mod models;
pub mod orchestrate;
pub mod script;
