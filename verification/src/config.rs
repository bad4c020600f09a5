//! Configuration of the streaming audio renderer.

use vstd::prelude::*;

verus! {

/// Sample rate in Hz. Standard CD quality.
pub const SAMPLE_RATE: u32 = 44_100;

/// Chunk size in frames, about 23 ms at 44100 Hz: the unit of work of the audio thread.
pub const CHUNK_SIZE: usize = 1024;

/// Maximum number of simultaneous voices (polyphony).
pub const MAX_VOICES: usize = 64;

/// Number of ring buffer slots for MIDI events, a power of two.
pub const RING_CAPACITY: usize = 1024;

/// Derived: samples per second.
pub const SAMPLES_PER_SEC: u32 = SAMPLE_RATE;

/// Application configuration, with a master gain of type `G`.
#[derive(Debug, Clone)]
pub struct Config<G> {
    /// Sample rate in Hz.
    pub sample_rate: u32,
    /// Audio chunk size in frames.
    pub chunk_size: usize,
    /// Maximum polyphony.
    pub max_voices: usize,
    /// Ring buffer capacity.
    pub ring_capacity: usize,
    /// Master gain.
    pub master_gain: G,
    /// Output WAV file path. If None, no file output.
    pub output_wav: Option<String>,
    /// JSONL spool directory for MIDI input. If None, no spool input.
    pub jsonl_spool: Option<String>,
    /// HTTP port for MIDI input. If None, no HTTP input.
    pub http_port: Option<u16>,
    /// Endpoint to poll for dials readings. If None, nothing is polled.
    pub dials_endpoint: Option<String>,
}

impl<G> Config<G> {
    /// The default configuration, with the given master gain: no input and no output is
    /// configured.
    pub fn with_gain(master_gain: G) -> (config: Config<G>)
        ensures
            config == (Config {
                sample_rate: 44_100,
                chunk_size: 1024,
                max_voices: 64,
                ring_capacity: 1024,
                master_gain,
                output_wav: None,
                jsonl_spool: None,
                http_port: None,
                dials_endpoint: None,
            }),
    {
        Config {
            sample_rate: SAMPLE_RATE,
            chunk_size: CHUNK_SIZE,
            max_voices: MAX_VOICES,
            ring_capacity: RING_CAPACITY,
            master_gain,
            output_wav: None,
            jsonl_spool: None,
            http_port: None,
            dials_endpoint: None,
        }
    }
}

} // verus!
