//! Verified core of an MFL (magnetic flux leakage) pipeline audit tool:
//! the raw `.mfl` container format, frame access, sample decoding, a bounded
//! FIFO ring buffer, and the integer rules of the defect-reporting pipeline.

pub mod mfl_format;
pub mod stream_parser;
pub mod ringbuf;
pub mod depth_inversion;
pub mod ascii_plot;
pub mod hough;
pub mod defect_extract;

pub use stream_parser::MflStream;
