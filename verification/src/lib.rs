//! Rucoon is a small async runtime with a fixed task capacity, meant for resource
//! constrained environments.
//!
//! This crate holds the runtime's bookkeeping: the fixed-size task list with its
//! slot protocol, the bounded MPMC task queue, the scheduling decisions of the
//! single- and multi-threaded runtimes, the timer wheel behind `Sleep`, and the
//! yield point. Each of them is stated over a mathematical model and proved.
//! Polling futures and waking them are done by the caller, which feeds the
//! outcome back into these state machines.
pub mod runtime;
pub mod futures;
pub mod extensions;
