//! A multi-track audio playback core: per-track streaming resamplers, a
//! gain-ramping mixer, and a playback state machine with frame-accurate
//! position bookkeeping, together with the song-library bookkeeping that
//! surrounds it.
//!
//! All signal values are carried in fixed point: a sample is an integer
//! number of `1/AMP_UNIT` steps of full scale, and a gain is an integer
//! number of thousandths. The host shell converts between this format and
//! the device's floating-point samples at the boundary.


pub mod downloads;
pub mod engine;
pub mod fixed;
pub mod gain;
pub mod mixer;
pub mod songs;
pub mod textdec;
pub mod track;
