//! A growable, peekable read buffer with a passthrough mode, as a state
//! machine: every decision the buffer takes is a verified function, and the
//! caller performs the reads against the byte source in between.

pub mod buf_reader;
pub mod laws;
pub mod model;
pub mod peek;
pub mod storage;

pub use buf_reader::AsyncBufReader;
pub use model::Buffered;
pub use model::ReadStep;
pub use peek::peek;
pub use peek::Peek;
