//! Fixed-point core of a live spectrum analyzer.
//!
//! Samples enter through a bounded FIFO [`channel::SampleChannel`], leave it
//! in fixed-size windows, and come back from the transform as decibel levels
//! that are framed, smoothed per bin and mapped to plot coordinates.
//!
//! Every quantity is an integer: a sample is the 32-bit word of its
//! single-precision encoding, a level is a count of millidecibels, a
//! frequency a count of millihertz, and a coefficient or a plot position a
//! count of millionths.

pub mod analyzer;
pub mod bin;
pub mod channel;
pub mod interpolate;
pub mod run;
pub mod scale;
pub mod spectrum;
pub mod track;
pub mod units;
