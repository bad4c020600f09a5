//! Streaming MIDI to audio renderer: its decisions, verified.
//!
//! ```text
//!  MIDI input -> event ring -> synthesizer -> WAV file, live output
//!  (spool, HTTP)               (voice pool)
//! ```
//!
//! The library holds what can be stated exactly: the event ring, the assignment of notes to
//! a fixed pool of voices, the segments of an envelope, the ear's memory, the order and the
//! records of the event spool, the answers of the HTTP input, and the reading of URLs and
//! response heads. Samples, levels and energies are type parameters here: the program around
//! the library hands in the arithmetic on them as functions, and does all input and output.
//!
//! Memory is bounded by the chunk, the pool and the histories, never by the duration.

pub mod config;
pub mod feel;
pub mod io;
pub mod midi;
pub mod mix;
pub mod relation;
pub mod ring;
pub mod synth;
pub mod text;
pub mod voice;
pub mod wav;
pub mod window;

pub use config::Config;
pub use feel::{DialsReadings, FeelPulse, FeltDirection, RenderState};
pub use midi::MidiEvent;
pub use ring::EventRing;
pub use synth::Synthesizer;
