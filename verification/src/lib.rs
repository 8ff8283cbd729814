//! Building blocks for a uniformly partitioned overlap-add convolution engine.
//!
//! A long impulse response is split into fixed-size segments, each segment is
//! carried into the frequency domain once, and every incoming audio block is
//! convolved against the whole bank by a multiply-accumulate over a sliding
//! window of recent input spectra.  The numeric work happens in the frequency
//! domain on complex samples; this crate provides the verified bookkeeping
//! around it: transform sizing, segmentation of a buffer into zero-extended
//! chunks, the fixed-capacity history ring, and the splitting of the
//! reconstructed stream into the returned block and the carried tail.

pub mod buffers;
pub mod ring;
pub mod segmenting;
pub mod sizing;
