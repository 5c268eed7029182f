//! The statistical monitor: one thread keeps a table of the watched threads and answers
//! questions, another one takes the samples.

pub mod info;
pub mod profiler;
pub mod statistics;
pub mod swap;
pub mod table;

pub use info::{ThreadInfo, ThreadInfoItem, ThreadInfoIterator};
