//! Fixed-point synthesis of a vehicle engine tone from recorded loops.
//!
//! A voice blends the two loops recorded nearest to the engine speed it is
//! asked for, each resampled to that speed, and a mixer sums the voices.
//! The render thread pulls buffers; the control thread ticks a loop that
//! says what to ask for next. Between the two stand latest-value cells.
//!
//! Every quantity is an integer: blend weights and rates are fractions of
//! [`fixed::ONE`], gains are fractions of [`fixed::GAIN_ONE`], read
//! positions carry sixteen fractional bits, and amplitudes are whole steps
//! of [`decode::FULL_SCALE`].

pub mod control;
pub mod crossfade;
pub mod cursor;
pub mod decode;
pub mod fixed;
pub mod handle;
pub mod mixer;
pub mod profile;
pub mod smoothing;
pub mod synth;
pub mod wave;
