//! A verified registry of named broadcast channels and the viewers tuned
//! into them: channel creation, ownership transfer, broadcast updates,
//! rating submission, and per-user viewing sessions, modelled as a
//! deterministic state machine over two key-value maps.

pub mod contract;
pub mod error;
pub mod kvmap;
pub mod msg;
pub mod order;
pub mod state;
