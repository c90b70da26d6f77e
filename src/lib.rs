//! A minimal cooperative executor: suspendable computations modelled as
//! explicit state machines, polled round-robin from a FIFO queue.
pub mod poll;
pub mod primitives;
pub mod task;
pub mod join;
pub mod job;
pub mod executor;
pub mod laws;
