//! Sparse non-negative deconvolution: the verified state and decisions of a
//! FISTA solver that recovers a spike train and a baseline from a trace
//! smoothed by a double-exponential kernel.
//!
//! The library holds every number as its IEEE 754 bit pattern and does no
//! arithmetic on it. It owns the solver's buffers and iteration state, lays
//! out the transforms, encodes and decodes the warm-start blob, and takes the
//! decisions of the solve and of the bandpass filter: projection onto the
//! non-negative samples, adaptive restart, convergence, validity of the
//! cutoffs, the gain region of each bin, the percentile baseline. The caller
//! computes the transforms, sums and products in between and hands the
//! results in.
pub mod binary32;
pub mod binary64;
pub mod buffer;
pub mod codec;
pub mod convolution;
pub mod fft;
pub mod filter;
pub mod fista;
pub mod kernel;
pub mod laws;
pub mod layout;
pub mod select;
pub mod solver;
