//! Race coordinator for a turn-based car race between autonomous participants.
//!
//! The coordinator is a state machine: participants register, the race is
//! started, and each turn one participant is asked for a decision. Its reply
//! is validated and applied, positions advance once per full round, and the
//! coordinator pauses when its execution budget runs out.
//!
//! Everything that talks to the host (sending messages, reading the budget,
//! acquiring reservations) is done by the caller: the functions here take the
//! host's answers as plain values and say what to do next.
pub mod types;
pub mod codec;
pub mod game;
pub mod laws;
