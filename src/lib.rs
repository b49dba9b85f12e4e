//! Room coordination for a real-time multiplayer relay: a room registry with a
//! consistent player-to-room index, a directory of delivery handles, fan-out
//! routing, and the per-connection session decisions.

pub mod seqs;
pub mod strmap;
pub mod registry;
pub mod protocol;
pub mod router;
pub mod session;
pub mod query;
