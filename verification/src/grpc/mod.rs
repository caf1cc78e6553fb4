//! The conversations with agents.

pub mod agent_laws;
pub mod confirm;
pub mod enrollment;
pub mod greeting;
pub mod hub;
pub mod laws;
pub mod lifecycle;
pub mod messages;
pub mod outbox;
pub mod renewal;
pub mod restore;
pub mod status;
pub mod stream;

pub use hub::Hub;
pub use outbox::{enqueue, Outbox, SendError};
pub use restore::build_full_restore_push;
