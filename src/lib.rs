//! A rectangular grid of styled characters for terminal-style rendering, with
//! a queue of the writes made since it was last drained.
pub mod buffer;
pub mod cell;
pub mod graphemes;
pub mod iter_buffer;
pub mod line;
pub mod location;
pub mod queue;
pub mod text;

pub use buffer::{Buffer, BufferError};
pub use cell::Cell;
pub use graphemes::Buffy;
pub use iter_buffer::{IterBuffer, IterMutBuffer};
pub use line::Line;
pub use location::Location;
pub use queue::{Queueable, Queued};
