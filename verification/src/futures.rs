//! Futures that are useful when writing tasks for the runtime.
pub mod yielder;
pub use yielder::{yield_now, Yielder};
