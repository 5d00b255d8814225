//! Minimalist synth and sequencing library.
//!
//! Sound is modelled in fixed-point arithmetic: amplitudes, phases and
//! volume levels are `i64` values measured in units of [`fixed::UNIT`],
//! and frequencies are `i64` values measured in millihertz.  Waveforms
//! are composable evaluators from phase to amplitude, pitch resolvers
//! map a normalized render position to a frequency, and the system
//! module renders channels into sample buffers and keeps the playback
//! bookkeeping.  Handing buffers to an actual output device is left to
//! a thin unverified shell around this crate.

pub mod fixed;
pub mod pitchers;
pub mod system;
pub mod waves;
