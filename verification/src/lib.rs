//! A small service core: a cron-like trigger evaluator, a job registry,
//! a scheduler state machine, and the request-handling logic of a tiny
//! record-query server. All logic is verified; process wiring (the async
//! runtime, sockets, the record store connection) lives outside the library.

pub mod parse;
pub mod registry;
pub mod router;
pub mod scheduler;
pub mod store;
pub mod time;
pub mod trigger;
