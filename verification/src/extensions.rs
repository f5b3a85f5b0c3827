//! Optional extensions to the runtime.
pub mod testing;
pub mod time;
