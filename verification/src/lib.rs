//! Garbage-collected strings, C strings, slices and boxes, with the bookkeeping
//! that decides buffer sizes, terminators and thread registration proved correct.

mod private;

pub mod boxed;
pub mod capacity;
pub mod cstring;
pub mod encoding;
pub mod string;
pub mod token;
pub mod vec;

pub use token::{init, init_thread, unregister, GcToken, Registration, ThreadGuard, ThreadToken};
