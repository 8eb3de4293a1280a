//! Verified delay-line audio effects on fixed-point samples.
//!
//! A circular sample store with interpolated reads, and two effects built on
//! it: a comb filter and a vibrato driven by a wavetable oscillator.

pub mod error;
pub mod block;
pub mod comb_filter;
pub mod fast_convolver;
pub mod fixed;
pub mod lfo;
pub mod modular;
pub mod ring_buffer;
pub mod vibrato;
