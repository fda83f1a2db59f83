//! Relay for the transactional outbox pattern: the record store with its
//! partition-lock protocol, the dispatch tick, the sink adapters' planning and
//! bookkeeping, and the lock janitor's schedule gate.

pub mod error;
pub mod destination;
pub mod outbox;
pub mod repository;
pub mod group;
pub mod notification;
pub mod resources;
pub mod processor;
pub mod guarantees;
pub mod headers;
pub mod sinks;
pub mod cleaner;
pub mod environment;
