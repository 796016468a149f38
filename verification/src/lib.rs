//! A polyphonic tone synthesizer in integer arithmetic.
//!
//! The synthesizer turns the notes that are held down into sound, one buffer
//! at a time. Every pitch from 0 to 127 has a voice of its own: an
//! oscillator that mixes sine, square, sawtooth and triangle, and an envelope
//! that lets the note rise and fade. The voices are added up, sent through
//! an optional delay line and an optional moving average, and limited to the
//! range of a sample.
//!
//! Nothing here is floating point. The scales are:
//!
//! - a sample is an `i32` from `-ONE` to `ONE`, with `ONE = 32768` standing
//!   for an amplitude of one;
//! - a phase is a `u32`, one cycle being `2^32`;
//! - a frequency is a `u32` count of `1 / 65536` hertz;
//! - an envelope level is a `u32` from 0 to `LEVEL_ONE = 2^30`;
//! - the weights of a mix of waveforms are hundredths.
//!
//! What the functions compute is stated over the models in `synth`; what
//! holds over any number of frames is proved in `laws`. How close the
//! integers come to the exact values is proved where they are computed: the
//! frequencies in `pitch`, the sine in `sine`, the ramps in `wave`.

pub mod audio;
pub mod envelope;
pub mod fixed;
pub mod laws;
pub mod notes;
pub mod pitch;
pub mod reverb;
pub mod sine;
pub mod smooth;
pub mod state;
pub mod synth;
pub mod voice;
pub mod wave;
pub mod waveform;
