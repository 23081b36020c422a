//! Verified core of a tail-and-highlight pipeline.
//!
//! A growing text file is read incrementally, split into lines, each line
//! classified against an ordered rule set and wrapped in styling markers,
//! and the result appended to a buffered sink; a one-shot completion
//! signal fires exactly once, only after every line of the initial
//! backlog has reached the sink. The modules here hold the pure logic of
//! that pipeline; the surrounding program supplies the file reads, the
//! scratch file and the viewer.

pub mod highlight;
pub mod lines;
pub mod pipeline;
pub mod signal;
pub mod sink;
pub mod style;
pub mod tail;
