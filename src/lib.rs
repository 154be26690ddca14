//! Fixed-capacity FIFO ring buffers that overwrite their oldest element when
//! full: [`RingBuffer`] keeps an occupancy tag in each slot, [`RingBufferU`]
//! tracks occupancy by its indices alone. Both share the model and the index
//! arithmetic of [`ring`].

pub mod ring;
pub mod ringbuffer;
pub mod ringbufferu;

pub use ring::ring_index;
pub use ringbuffer::{RBIter, RingBuffer};
pub use ringbufferu::{RBUIter, RingBufferU};
