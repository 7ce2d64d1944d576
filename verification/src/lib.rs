//! Verified core of a small futures/event-loop library: the state machine
//! that drives an asynchronous fold over a stream, the token table of the
//! event loop, and the decisions taken after each non-blocking I/O attempt.

pub mod poll;
pub mod event_loop;
pub mod fold;
pub mod readiness;
