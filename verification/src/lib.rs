//! A line-synchronized duplicating stream reader.
//!
//! [`Tee`] sits between an upstream byte producer and a line-oriented
//! consumer: every byte handed to the consumer is first copied to a
//! downstream sink, and a single read never hands out fresh bytes past a
//! line terminator, so the sink and the consumer always agree on line
//! boundaries.

mod laws;
mod locate;
mod tee;

pub use locate::parse_u32;
pub use locate::u32_string;
pub use locate::ErrorLocation;
pub use locate::FILE_COLON_LINE;
pub use locate::FILE_COLON_LINE_COLON_COLUMN;
pub use locate::PYTHON;
pub use tee::line_cutoff;
pub use tee::Tee;
pub use tee::HOLDBACK_CAPACITY;
pub use tee::NEWLINE;
