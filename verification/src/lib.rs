//! A fixed-capacity circular buffer with first-in-first-out access.
//!
//! A [`CircularBuffer`] is created once with a capacity and never resized.
//! Its abstract value is the sequence of stored elements, oldest first,
//! together with the capacity. Every operation says what it does to that
//! value, and what it does to the slots and to the two indices into them.

pub mod buffer;
pub mod error;
pub mod laws;
pub mod model;

pub use buffer::CircularBuffer;
pub use error::Error;
