//! The decisions of the library under a small sound engine on `f32` samples.

use fleet_audio::config::Config;
use fleet_audio::feel::{
    direction, rate_of_change, DialsReadings, EarArithmetic, FeelPulse, FeltDirection, Gauge,
    Push, RenderState, ShapeArithmetic,
};
use fleet_audio::midi::{MidiEvent, VoiceType};
use fleet_audio::mix::MixBuffer;
use fleet_audio::ring::EventRing;
use fleet_audio::synth::{Synthesizer, VoiceCommand, VoiceSlot};
use fleet_audio::voice::drums::{DrumArithmetic, DrumTick, DrumVoice};
use fleet_audio::voice::guitar::GuitarVoice;
use fleet_audio::voice::{AdsrEnvelope, EnvelopePreset, EnvelopeShape, RampArithmetic, VoiceGate};

/// Per-pulse moves below this read as 0: only the movement matters.
const DEFAULT_NOISE_FLOOR: f32 = 0.02;

/// Maximum push the feel applies to gain and velocity (a 25% swing either way).
const MAX_PUSH: f32 = 0.25;

/// Weight of the direction in the felt push.
const DIR_WEIGHT: f32 = 1.0;

/// Weight of the rate of change in the felt push.
const RATE_WEIGHT: f32 = 0.5;

/// How strongly the room's warmth tilts the felt energy.
const WARMTH_TILT: f32 = 0.2;

/// A beat is a rising energy edge this far above the rolling mean.
const ONSET_MARGIN: f32 = 0.05;

/// Exponential smoothing factor for the tempo estimate.
const TEMPO_ALPHA: f32 = 0.1;

/// Log-scale floor, so that zero energy reads as silence.
const EPS: f32 = 1e-10;

/// Listening on `f32`.
type EarOps = EarArithmetic<
    fn(f32) -> bool,
    fn(f32, f32) -> f32,
    fn(f32, f32) -> f32,
    fn(f32, f32, f32) -> f32,
    fn(f32, usize) -> f32,
    fn(f32, f32) -> bool,
    fn(f32, u64) -> f32,
    fn(f32, f32) -> Gauge,
>;

/// Shaping on `f32`.
type ShapeOps = ShapeArithmetic<
    fn(f32, f32) -> Push<f32>,
    fn(f32) -> Push<f32>,
    fn(f32) -> f32,
    fn(f32, f32) -> f32,
>;

const EAR: EarOps = EarArithmetic {
    is_finite: f32::is_finite,
    add,
    subtract,
    second_difference,
    mean,
    stands_out,
    smooth,
    gauge,
};

const SHAPE: ShapeOps = ShapeArithmetic { combine, steady, multiplier, scale };

/// A fresh ear with the default noise floor and history.
fn new_ear() -> FeelPulse<f32> {
    FeelPulse::new(DEFAULT_NOISE_FLOOR, 0.0)
}

fn add(a: f32, b: f32) -> f32 {
    a + b
}

fn subtract(a: f32, b: f32) -> f32 {
    a - b
}

fn second_difference(newest: f32, before: f32, earlier: f32) -> f32 {
    newest - 2.0 * before + earlier
}

/// Kept finite, however large the sum.
fn mean(sum: f32, n: usize) -> f32 {
    (sum / n as f32).clamp(f32::MIN, f32::MAX)
}

fn stands_out(energy: f32, mean: f32) -> bool {
    energy > mean + ONSET_MARGIN
}

fn smooth(tempo: f32, frames: u64) -> f32 {
    let spacing = frames as f32;
    if tempo <= 0.0 {
        spacing
    } else {
        tempo + TEMPO_ALPHA * (spacing - tempo)
    }
}

fn gauge(value: f32, noise_floor: f32) -> Gauge {
    Gauge {
        within: value.abs() < noise_floor,
        rises: value > noise_floor,
        falls: value < -noise_floor,
    }
}

fn bounded_push(value: f32) -> Push<f32> {
    let value = value.clamp(-MAX_PUSH, MAX_PUSH);
    Push { value, raises: value > 0.0, lowers: value < 0.0 }
}

fn combine(direction: f32, rate: f32) -> Push<f32> {
    let direction = direction.clamp(-1.0, 1.0);
    let rate = rate.clamp(-1.0, 1.0);
    bounded_push(direction * DIR_WEIGHT + rate * RATE_WEIGHT)
}

fn steady(direction: f32) -> Push<f32> {
    bounded_push(direction.clamp(-1.0, 1.0) * DIR_WEIGHT)
}

fn multiplier(push: f32) -> f32 {
    (1.0 + push).clamp(0.0, 1.0 + MAX_PUSH)
}

fn scale(level: f32, multiplier: f32) -> f32 {
    clamp01(level * multiplier)
}

fn clamp01(x: f32) -> f32 {
    x.clamp(0.0, 1.0)
}

/// Warmth is energy: a warm room feels louder, a cold room quieter.
fn tilt(volume: f32, mood: f32) -> f32 {
    clamp01(clamp01(volume) + WARMTH_TILT * mood.clamp(-1.0, 1.0))
}

/// Loudness in dB. A mean that rounding has taken below zero reads as silence.
fn loudness(energy: f32) -> f32 {
    20.0 * (energy.max(0.0) + EPS).log10()
}

/// Is `x` a tempo or a rate that there can be?
fn counts(x: f32) -> bool {
    x > 0.0 && x.is_finite()
}

/// Beats per minute.
fn per_minute(frames_per_second: f32, frames_per_beat: f32) -> f32 {
    frames_per_second * 60.0 / frames_per_beat
}

/// The rate that the voices are tuned for, in Hz.
const TUNED_RATE: f32 = 44100.0;

/// A synthesis voice that can render audio samples.
trait Voice: Send {
    /// Make the voice as new, without allocating.
    fn reset(&mut self);
    /// Trigger a note on.
    fn note_on(&mut self, note: u8, velocity: u8);
    /// Trigger a note off (begin release phase).
    fn note_off(&mut self);
    /// Mix samples into the buffer.
    fn render(&mut self, output: &mut [f32], sample_rate: u32);
    /// Is this voice currently producing sound?
    fn is_active(&self) -> bool;
    /// What note is this voice playing? (None if idle)
    fn current_note(&self) -> Option<u8>;
}

/// The voices that one slot can play, all of them made up front.
struct VoiceBank {
    playing: VoiceType,
    piano: Piano,
    bass: Bass,
    strings: Strings,
    guitar: Guitar,
    drums: Drums,
}

impl VoiceBank {
    fn new() -> Self {
        Self {
            playing: VoiceType::Piano,
            piano: Piano::new(),
            bass: Bass::new(),
            strings: Strings::new(),
            guitar: Guitar::new(),
            drums: Drums::new(),
        }
    }

    /// Take up a fresh voice of the given type.
    fn start(&mut self, voice_type: VoiceType, note: u8, velocity: u8) {
        self.playing = voice_type;
        let voice = self.voice();
        voice.reset();
        voice.note_on(note, velocity);
    }

    /// The voice that the slot plays.
    fn voice(&mut self) -> &mut dyn Voice {
        match self.playing {
            VoiceType::Piano => &mut self.piano,
            VoiceType::Bass => &mut self.bass,
            VoiceType::Strings => &mut self.strings,
            VoiceType::Guitar => &mut self.guitar,
            VoiceType::Drums => &mut self.drums,
        }
    }
}

/// Frequency of a MIDI note in Hz, in equal temperament.
fn note_to_freq(note: u8) -> f32 {
    440.0_f32 * 2.0_f32.powf((note as f32 - 69.0) / 12.0)
}

fn millionths(n: u32) -> f32 {
    n as f32 / 1_000_000.0
}

fn shape(preset: EnvelopePreset) -> EnvelopeShape<f32> {
    EnvelopeShape {
        attack: millionths(preset.attack_us),
        decay: millionths(preset.decay_us),
        sustain: millionths(preset.sustain_ppm),
        release: millionths(preset.release_us),
        sample_rate: TUNED_RATE,
        silence: 0.0,
        full: 1.0,
        sustains: preset.sustains(),
    }
}

/// The ramps on `f32`.
const RAMPS: RampArithmetic<
    fn(f32) -> bool,
    fn(f32, f32, f32, f32, f32) -> f32,
    fn(f32, f32) -> bool,
> = RampArithmetic { lasts, glide, le };

/// The decay of a hit on `f32`.
const DECAY: DrumArithmetic<fn(f32) -> bool, fn(f32, f32) -> f32, fn(f32) -> bool> =
    DrumArithmetic { is_audible, subtract, is_negative };

fn is_audible(level: f32) -> bool {
    !(level <= 0.001)
}

fn is_negative(level: f32) -> bool {
    level < 0.0
}

fn lasts(time: f32) -> bool {
    time > 0.0
}

fn glide(level: f32, time: f32, sample_rate: f32, from: f32, to: f32) -> f32 {
    let dt = 1.0 / sample_rate;
    level + dt / time * (to - from)
}

fn le(a: f32, b: f32) -> bool {
    a <= b
}

fn amplitude(velocity: u8) -> f32 {
    velocity as f32 / 127.0
}

fn wrapped(phase: f32) -> f32 {
    if phase >= 1.0 {
        phase - 1.0
    } else {
        phase
    }
}

fn noise_to_sample(word: u32) -> f32 {
    (word as f32 / u32::MAX as f32) * 2.0 - 1.0
}

/// Fast sine approximation of a phase in [0, 1).
fn fast_sin(phase: f32) -> f32 {
    let x = phase * 2.0 * std::f32::consts::PI;
    let x = x - 2.0 * std::f32::consts::PI * ((x / (2.0 * std::f32::consts::PI)).floor() + 0.5);
    let y = x * x;
    let s = 0.224 + 0.776 * (1.0 - y / 10.0);
    let result = x * s;
    result * (2.0 - result.abs() * 0.625)
}

/// Number of harmonics for additive synthesis.
const HARMONICS: usize = 8;

/// Piano: additive synthesis, higher harmonics weaker.
struct Piano {
    gate: VoiceGate<f32>,
    freq: f32,
    phases: [f32; HARMONICS],
    phase_incs: [f32; HARMONICS],
    velocity_amp: f32,
}

impl Piano {
    fn new() -> Self {
        Self {
            gate: VoiceGate::new(shape(EnvelopePreset::piano())),
            freq: 0.0,
            phases: [0.0; HARMONICS],
            phase_incs: [0.0; HARMONICS],
            velocity_amp: 0.0,
        }
    }

    fn update_phase_incs(&mut self, sample_rate: f32) {
        for h in 0..HARMONICS {
            let harmonic_freq = self.freq * (h + 1) as f32;
            self.phase_incs[h] = harmonic_freq / sample_rate;
        }
    }

    fn render_sample(&mut self) -> f32 {
        let env_level = self.gate.process(&RAMPS);
        if env_level <= 0.0 {
            return 0.0;
        }
        let mut sample = 0.0_f32;
        for h in 0..HARMONICS {
            sample += fast_sin(self.phases[h]) * (1.0 / (h as f32 + 1.0));
        }
        for h in 0..HARMONICS {
            self.phases[h] = wrapped(self.phases[h] + self.phase_incs[h]);
        }
        sample * env_level * self.velocity_amp * 0.3
    }
}

impl Voice for Piano {
    fn reset(&mut self) {
        *self = Self::new();
    }

    fn note_on(&mut self, note: u8, velocity: u8) {
        self.freq = note_to_freq(note);
        self.velocity_amp = amplitude(velocity);
        self.update_phase_incs(TUNED_RATE);
        self.phases = [0.0; HARMONICS];
        self.gate.note_on(note);
    }

    fn note_off(&mut self) {
        self.gate.note_off();
    }

    fn render(&mut self, output: &mut [f32], sample_rate: u32) {
        self.update_phase_incs(sample_rate as f32);
        for sample in output.iter_mut() {
            *sample += self.render_sample();
        }
    }

    fn is_active(&self) -> bool {
        self.gate.is_active()
    }

    fn current_note(&self) -> Option<u8> {
        self.gate.current_note()
    }
}

/// One-pole lowpass filter.
struct OnePoleLowpass {
    a0: f32,
    b1: f32,
    z1: f32,
}

impl OnePoleLowpass {
    fn new() -> Self {
        Self { a0: 1.0, b1: 0.0, z1: 0.0 }
    }

    fn set_cutoff(&mut self, cutoff_hz: f32, sample_rate: f32) {
        let x = std::f32::consts::PI * cutoff_hz / sample_rate;
        self.a0 = x;
        self.b1 = 1.0 - x;
    }

    fn process(&mut self, input: f32) -> f32 {
        self.z1 = input * self.a0 + self.z1 * self.b1;
        self.z1
    }
}

/// Bass: sawtooth, lowpass filter, envelope.
struct Bass {
    gate: VoiceGate<f32>,
    freq: f32,
    phase: f32,
    phase_inc: f32,
    velocity_amp: f32,
    filter: OnePoleLowpass,
}

impl Bass {
    fn new() -> Self {
        let mut filter = OnePoleLowpass::new();
        filter.set_cutoff(800.0, TUNED_RATE);
        Self {
            gate: VoiceGate::new(shape(EnvelopePreset::bass())),
            freq: 0.0,
            phase: 0.0,
            phase_inc: 0.0,
            velocity_amp: 0.0,
            filter,
        }
    }

    fn render_sample(&mut self) -> f32 {
        let env_level = self.gate.process(&RAMPS);
        if env_level <= 0.0 {
            return 0.0;
        }
        let saw = self.phase * 2.0 - 1.0;
        self.phase = wrapped(self.phase + self.phase_inc);
        self.filter.process(saw) * env_level * self.velocity_amp
    }
}

impl Voice for Bass {
    fn reset(&mut self) {
        *self = Self::new();
    }

    fn note_on(&mut self, note: u8, velocity: u8) {
        self.freq = note_to_freq(note);
        self.velocity_amp = amplitude(velocity);
        self.phase_inc = self.freq / TUNED_RATE;
        self.phase = 0.0;
        self.gate.note_on(note);
    }

    fn note_off(&mut self) {
        self.gate.note_off();
    }

    fn render(&mut self, output: &mut [f32], sample_rate: u32) {
        self.phase_inc = self.freq / sample_rate as f32;
        for sample in output.iter_mut() {
            *sample += self.render_sample();
        }
    }

    fn is_active(&self) -> bool {
        self.gate.is_active()
    }

    fn current_note(&self) -> Option<u8> {
        self.gate.current_note()
    }
}

/// Strings: sawtooth with vibrato and a slow attack.
struct Strings {
    gate: VoiceGate<f32>,
    freq: f32,
    phase: f32,
    velocity_amp: f32,
    vibrato_phase: f32,
    /// Vibrato depth in semitones.
    vibrato_depth: f32,
    /// Vibrato rate in Hz.
    vibrato_rate: f32,
}

impl Strings {
    fn new() -> Self {
        Self {
            gate: VoiceGate::new(shape(EnvelopePreset::strings())),
            freq: 0.0,
            phase: 0.0,
            velocity_amp: 0.0,
            vibrato_phase: 0.0,
            vibrato_depth: 0.15,
            vibrato_rate: 5.0,
        }
    }

    fn render_sample(&mut self, sample_rate: f32) -> f32 {
        let env_level = self.gate.process(&RAMPS);
        if env_level <= 0.0 {
            return 0.0;
        }
        let vibrato = fast_sin(self.vibrato_phase) * self.vibrato_depth;
        let modulated_freq = self.freq * 2.0_f32.powf(vibrato / 12.0);
        let saw = self.phase * 2.0 - 1.0;
        self.phase = wrapped(self.phase + modulated_freq / sample_rate);
        self.vibrato_phase = wrapped(self.vibrato_phase + self.vibrato_rate / sample_rate);
        let softened = saw * 0.6 + (saw * saw * saw) * 0.4;
        softened * env_level * self.velocity_amp * 0.4
    }
}

impl Voice for Strings {
    fn reset(&mut self) {
        *self = Self::new();
    }

    fn note_on(&mut self, note: u8, velocity: u8) {
        self.freq = note_to_freq(note);
        self.velocity_amp = amplitude(velocity);
        self.phase = 0.0;
        self.vibrato_phase = 0.0;
        self.gate.note_on(note);
    }

    fn note_off(&mut self) {
        self.gate.note_off();
    }

    fn render(&mut self, output: &mut [f32], sample_rate: u32) {
        for sample in output.iter_mut() {
            *sample += self.render_sample(sample_rate as f32);
        }
    }

    fn is_active(&self) -> bool {
        self.gate.is_active()
    }

    fn current_note(&self) -> Option<u8> {
        self.gate.current_note()
    }
}

/// Guitar: Karplus-Strong string.
struct Guitar {
    string: GuitarVoice<f32>,
    /// Feedback factor (close to 1 = long sustain).
    decay: f32,
}

impl Guitar {
    fn new() -> Self {
        Self { string: GuitarVoice::new(shape(EnvelopePreset::guitar())), decay: 0.996 }
    }

    fn render_sample(&mut self) -> f32 {
        let decay = self.decay;
        let blend = |current: f32, next: f32| (current + next) * 0.5 * decay;
        self.string.render_sample(&RAMPS, blend, |tap: f32, level: f32| tap * level)
    }
}

impl Voice for Guitar {
    fn reset(&mut self) {
        self.string.reset();
    }

    fn note_on(&mut self, note: u8, velocity: u8) {
        let period = (44100.0 / note_to_freq(note)) as usize;
        let amp = amplitude(velocity);
        self.string.note_on(note, period, |word: u32| noise_to_sample(word) * amp);
    }

    fn note_off(&mut self) {
        self.string.note_off();
    }

    fn render(&mut self, output: &mut [f32], _sample_rate: u32) {
        for sample in output.iter_mut() {
            *sample += self.render_sample();
        }
    }

    fn is_active(&self) -> bool {
        self.string.is_active()
    }

    fn current_note(&self) -> Option<u8> {
        self.string.current_note()
    }
}

/// Drums: noise and a sine boom.
struct Drums {
    drum: DrumVoice<f32>,
    phase: f32,
    phase_inc: f32,
    filter_state: f32,
    kick_freq_current: f32,
    kick_freq_target: f32,
    kick_freq_decay: f32,
}

impl Drums {
    fn new() -> Self {
        Self {
            drum: DrumVoice::new(0.0),
            phase: 0.0,
            phase_inc: 0.0,
            filter_state: 0.0,
            kick_freq_current: 0.0,
            kick_freq_target: 0.0,
            kick_freq_decay: 0.0,
        }
    }

    fn boom(&mut self) -> f32 {
        let s = fast_sin(self.phase);
        self.phase = wrapped(self.phase + self.phase_inc);
        if self.kick_freq_current > self.kick_freq_target {
            self.kick_freq_current -= self.kick_freq_decay * TUNED_RATE;
            if self.kick_freq_current < self.kick_freq_target {
                self.kick_freq_current = self.kick_freq_target;
            }
            self.phase_inc = self.kick_freq_current / TUNED_RATE;
        }
        s * 0.8
    }

    fn render_sample(&mut self) -> f32 {
        let (tick, level) = self.drum.render_sample(&DECAY);
        let sample = match tick {
            DrumTick::Silent => return 0.0,
            DrumTick::Kick => self.boom(),
            DrumTick::Snare { noise } => {
                let noise = noise_to_sample(noise);
                self.filter_state = self.filter_state * 0.7 + noise * 0.3;
                let tone = fast_sin(self.phase) * 0.3;
                self.phase = wrapped(self.phase + 200.0 / TUNED_RATE);
                self.filter_state * 0.6 + tone
            }
            DrumTick::HiHat { noise } => {
                let noise = noise_to_sample(noise);
                let hp = noise - self.filter_state * 0.9;
                self.filter_state = self.filter_state * 0.9 + noise * 0.1;
                hp * 0.5
            }
            DrumTick::Crash { noise } => {
                let noise = noise_to_sample(noise);
                let hp = noise - self.filter_state * 0.95;
                self.filter_state = self.filter_state * 0.95 + noise * 0.05;
                hp * 0.6
            }
        };
        sample * level
    }
}

impl Voice for Drums {
    fn reset(&mut self) {
        *self = Self::new();
    }

    fn note_on(&mut self, note: u8, velocity: u8) {
        let sound = self.drum.note_on(note, amplitude(velocity), millionths);
        self.phase = 0.0;
        match sound.pitch {
            Some(pitch) => {
                self.kick_freq_current = pitch.start_hz as f32;
                self.kick_freq_target = pitch.target_hz as f32;
                self.kick_freq_decay = millionths(pitch.drop_ppm);
                self.phase_inc = self.kick_freq_current / TUNED_RATE;
            }
            None => self.filter_state = 0.0,
        }
    }

    fn note_off(&mut self) {
        // Drums decay by themselves; letting go only makes it faster.
        self.drum.note_off(|rate: f32| rate * 4.0);
    }

    fn render(&mut self, output: &mut [f32], _sample_rate: u32) {
        for sample in output.iter_mut() {
            *sample += self.render_sample();
        }
    }

    fn is_active(&self) -> bool {
        self.drum.is_active()
    }

    fn current_note(&self) -> Option<u8> {
        self.drum.current_note()
    }
}

/// The sound engine.
struct Renderer {
    synth: Synthesizer<f32>,
    voices: Vec<VoiceBank>,
    mix_buffer: MixBuffer<f32>,
    /// The samples of one voice.
    voice_buffer: Vec<f32>,
    commands: Vec<VoiceCommand>,
    chunk_us: u64,
}

impl Renderer {
    fn new(config: &Config<f32>) -> Self {
        let mut voices = Vec::new();
        voices.resize_with(config.max_voices, VoiceBank::new);
        let us_per_sample = 1_000_000.0 / config.sample_rate as f64;
        Self {
            synth: Synthesizer::new(config),
            voices,
            mix_buffer: MixBuffer::new(config.chunk_size, 0.0),
            voice_buffer: vec![0.0; config.chunk_size],
            commands: Vec::new(),
            chunk_us: (config.chunk_size as f64 * us_per_sample) as u64,
        }
    }

    fn with_defaults() -> Self {
        Self::new(&Config::with_gain(0.7))
    }

    fn process_chunk(&mut self, ring: &mut EventRing) -> &[f32] {
        self.mix_buffer.clear();
        self.synth.process_chunk(ring, self.chunk_us, &mut self.commands);
        let sample_rate = self.synth.sample_rate();
        for i in 0..self.commands.len() {
            match self.commands[i] {
                VoiceCommand::Start { slot, voice, note, velocity } => {
                    self.voices[slot].start(voice, note, velocity);
                }
                VoiceCommand::Release { slot } => {
                    self.voices[slot].voice().note_off();
                }
                VoiceCommand::Render { slot } => {
                    let voice = self.voices[slot].voice();
                    self.voice_buffer.fill(0.0);
                    voice.render(&mut self.voice_buffer, sample_rate);
                    self.mix_buffer.mix_in(&self.voice_buffer, |a: f32, b: f32| a + b);
                    if !voice.is_active() {
                        self.synth.voice_finished(slot);
                    }
                }
            }
        }
        let mix = self.mix_buffer.samples();
        let gain = self.synth.chunk_gain(|| rms(mix).tanh(), 1.0, &EAR, &SHAPE);
        self.mix_buffer.finish(gain, |sample: f32, gain: f32| sample * gain, soft_clip);
        self.mix_buffer.samples()
    }

    fn feed_dials(&mut self, readings: DialsReadings<f32>) {
        self.synth.feed_dials(readings, tilt, &EAR);
    }
}

/// Root-mean-square energy of a sample buffer.
fn rms(buf: &[f32]) -> f32 {
    if buf.is_empty() {
        return 0.0;
    }
    let sum_sq: f32 = buf.iter().map(|s| s * s).sum();
    (sum_sq / buf.len() as f32).sqrt()
}

/// Soft clipping, a polynomial approximation of tanh.
fn soft_clip(x: f32) -> f32 {
    let x2 = x * x;
    x * (27.0 + x2) / (27.0 + 9.0 * x2)
}

fn peak(samples: &[f32]) -> f32 {
    samples.iter().fold(0.0_f32, |acc, x| acc.max(x.abs()))
}

fn near(a: f32, b: f32, epsilon: f32) -> bool {
    (a - b).abs() <= epsilon
}

/// A fresh ear fed a series of energy frames.
fn feel_from(series: &[f32]) -> FeelPulse<f32> {
    let mut f = new_ear();
    for &e in series {
        f.push(e, &EAR);
    }
    f
}

/// An ear seeded with one dial reading.
fn seeded(readings: DialsReadings<f32>) -> FeelPulse<f32> {
    FeelPulse::from_dials(readings, DEFAULT_NOISE_FLOOR, 0.0, tilt, &EAR)
}

/// Direction of a whole series.
fn direction_of(series: &[f32], floor: f32) -> f32 {
    direction(series, floor, 0.0, subtract, gauge)
}

/// Rate of change of a whole series.
fn rate_of(series: &[f32], floor: f32) -> f32 {
    rate_of_change(series, floor, 0.0, second_difference, gauge)
}

#[test]
fn rising_energy_shapes_output_up() {
    let f = feel_from(&[0.1, 0.2, 0.3]);
    assert_eq!(f.felt(), FeltDirection::Rising);
    let shaped = f.shape_output(RenderState::new(0.7, 0.5), &SHAPE);
    assert!(shaped.gain > 0.7, "rising should push gain up");
    assert!(shaped.velocity > 0.5, "rising should push velocity up");
    assert!(f.gain_multiplier(&SHAPE) > 1.0);
}

#[test]
fn falling_energy_shapes_output_down() {
    let f = feel_from(&[0.3, 0.2, 0.1]);
    assert_eq!(f.felt(), FeltDirection::Falling);
    let shaped = f.shape_output(RenderState::new(0.7, 0.5), &SHAPE);
    assert!(shaped.gain < 0.7, "falling should pull gain down");
    assert!(shaped.velocity < 0.5, "falling should pull velocity down");
    assert!(f.gain_multiplier(&SHAPE) < 1.0);
}

#[test]
fn flat_energy_holds_output() {
    let f = feel_from(&[0.2, 0.2, 0.2]);
    assert_eq!(f.felt(), FeltDirection::Flat);
    let shaped = f.shape_output(RenderState::new(0.7, 0.5), &SHAPE);
    assert!(near(shaped.gain, 0.7, 1e-6));
    assert!(near(shaped.velocity, 0.5, 1e-6));
    assert!(near(f.gain_multiplier(&SHAPE), 1.0, 1e-6));
}

#[test]
fn acceleration_adds_to_push() {
    // Constant-speed rise vs accelerating rise: the accelerating one
    // pushes harder (rate of change adds to the felt push).
    let steady = feel_from(&[0.10, 0.20, 0.30]);
    let accel = feel_from(&[0.10, 0.20, 0.40]);
    assert!(accel.gain_multiplier(&SHAPE) > steady.gain_multiplier(&SHAPE));
    assert_eq!(steady.rate(), 0.0, "steady rise has zero rate of change");
    assert!(accel.rate() > 0.0, "accelerating rise has positive rate");
}

#[test]
fn nan_is_carried_forward_not_a_movement() {
    let f = feel_from(&[0.2, 0.3, f32::NAN, 0.3]);
    // The NaN glitch is carried forward: 0.3 -> 0.3 -> 0.3, so flat.
    assert_eq!(f.felt(), FeltDirection::Flat);
    let shaped = f.shape_output(RenderState::new(0.7, 0.5), &SHAPE);
    assert!(shaped.gain.is_finite());
    assert!(shaped.velocity.is_finite());
    assert!(near(f.gain_multiplier(&SHAPE), 1.0, 1e-6));
}

#[test]
fn inf_is_carried_forward_not_a_movement() {
    let f = feel_from(&[0.2, f32::INFINITY, 0.2]);
    // inf carried forward: 0.2 -> 0.2 -> 0.2, flat.
    assert_eq!(f.felt(), FeltDirection::Flat);
    assert!(f.gain_multiplier(&SHAPE).is_finite());
}

#[test]
fn direction_needs_two_readings() {
    assert_eq!(direction_of(&[0.5], DEFAULT_NOISE_FLOOR), 0.0);
    assert!(near(direction_of(&[0.5, 0.7], DEFAULT_NOISE_FLOOR), 0.2, f32::EPSILON));
    // Below the noise floor: 0.
    assert_eq!(direction_of(&[0.5, 0.51], DEFAULT_NOISE_FLOOR), 0.0);
}

#[test]
fn rate_needs_three_readings() {
    assert_eq!(rate_of(&[0.5, 0.7], DEFAULT_NOISE_FLOOR), 0.0);
    // Constant speed: zero acceleration.
    assert_eq!(rate_of(&[0.1, 0.2, 0.3], DEFAULT_NOISE_FLOOR), 0.0);
    // Accelerating: positive second difference.
    assert!(near(rate_of(&[0.1, 0.2, 0.4], DEFAULT_NOISE_FLOOR), 0.1, 1e-6));
}

#[test]
fn history_is_bounded() {
    let mut f = FeelPulse::with_params(DEFAULT_NOISE_FLOOR, 0.0, 8);
    for i in 0..1000 {
        f.push((i % 10) as f32 / 10.0, &EAR);
    }
    assert!(f.n_readings() <= 8, "history must stay bounded");
}

#[test]
fn dials_bridge_works() {
    // A warm room reads louder than its raw volume.
    let warm = seeded(DialsReadings::new(0.8, 0.5));
    // A cold room reads quieter than its raw volume.
    let cold = seeded(DialsReadings::new(0.8, -1.0));
    assert!(warm.last_energy() > 0.8, "warmth tilts energy up");
    assert!(cold.last_energy() < 0.8, "cold tilts energy down");
    assert!(warm.last_energy() > cold.last_energy());
    // The dials seed a valid, finite pulse.
    assert!(warm.last_energy().is_finite());
    assert!(cold.last_energy().is_finite());
}

#[test]
fn dials_feed_rises_shapes_up() {
    // Feeding rising room loudness through the dials bridge shapes up.
    let mut f = seeded(DialsReadings::new(0.3, 0.0));
    f.push_dials(DialsReadings::new(0.6, 0.0), tilt, &EAR);
    f.push_dials(DialsReadings::new(0.9, 0.0), tilt, &EAR);
    assert_eq!(f.felt(), FeltDirection::Rising);
    assert!(f.gain_multiplier(&SHAPE) > 1.0);
}

#[test]
fn loudness_db_is_finite_for_silence() {
    let f = feel_from(&[0.0, 0.0, 0.0]);
    assert!(f.loudness_db(&mean, &loudness).is_finite());
    assert!(f.loudness_db(&mean, &loudness) < 0.0);
}

#[test]
fn tempo_is_zero_for_flat_stream() {
    // A flat stream has no rising onsets, so no tempo yet.
    let f = feel_from(&[0.2; 32]);
    assert_eq!(f.tempo_bpm(1.0, &counts, &per_minute), 0.0);
}

#[test]
fn tempo_detects_onsets() {
    // A stream with clear rising onsets should feel a tempo.
    let mut f = new_ear();
    for i in 0..32 {
        let phase = i % 4;
        let e = if phase == 0 { 0.9 } else { 0.05 };
        f.push(e, &EAR);
    }
    assert!(f.onset_count() > 1, "should detect multiple onsets");
    assert!(f.tempo_bpm(1.0, &counts, &per_minute) > 0.0);
}

#[test]
fn onsets_are_counted_at_each_upward_crossing() {
    // The first frame is its own mean and crosses nothing; every later beat does.
    let mut f = new_ear();
    for i in 0..32 {
        f.push(if i % 4 == 0 { 0.9 } else { 0.05 }, &EAR);
    }
    assert_eq!(f.onset_count(), 7);
    assert_eq!(f.frames_since_onset(), 3);
    assert!(near(f.tempo_frames(), 4.0, 1e-6));
    assert!(near(f.tempo_bpm(2.0, &counts, &per_minute), 30.0, 1e-4));
}

#[test]
fn perception_reads_the_pulse() {
    let p = feel_from(&[0.1, 0.2, 0.4]).perception_check(&mean, &loudness);
    assert_eq!(p.n_readings, 3);
    assert!(near(p.energy, 0.7 / 3.0, 1e-6));
    assert!(near(p.loudness_db, 20.0 * (0.7_f32 / 3.0).log10(), 1e-4));
    assert_eq!(p.tempo_frames, 0.0);
    assert!(near(p.direction, 0.2, 1e-6));
    assert!(near(p.rate, 0.1, 1e-6));
    assert_eq!(p.felt, FeltDirection::Rising);
}

#[test]
fn energy_sum_follows_the_window() {
    let mut f = FeelPulse::with_params(DEFAULT_NOISE_FLOOR, 0.0, 3);
    for e in [1.0, 2.0, 3.0, 4.0, 5.0] {
        f.push(e, &EAR);
    }
    assert_eq!(f.energy_sum(), 12.0);
    assert_eq!(f.energy_mean(&mean), 4.0);
    assert_eq!(f.recent(0), Some(5.0));
    assert_eq!(f.recent(2), Some(3.0));
    assert_eq!(f.recent(3), None);
}

#[test]
fn a_glitch_first_of_all_reads_as_silence() {
    let f = feel_from(&[f32::NAN]);
    assert_eq!(f.n_readings(), 1);
    assert_eq!(f.last_energy(), 0.0);
    assert_eq!(f.felt(), FeltDirection::Flat);
}

fn envelope(attack: f32, decay: f32, sustain: f32, release: f32) -> AdsrEnvelope<f32> {
    AdsrEnvelope::new(EnvelopeShape {
        attack,
        decay,
        sustain,
        release,
        sample_rate: 44100.0,
        silence: 0.0,
        full: 1.0,
        sustains: sustain > 0.0,
    })
}

fn advance(env: &mut AdsrEnvelope<f32>) -> f32 {
    env.process(&RAMPS)
}

#[test]
fn envelope_attack_decay_sustain() {
    let mut env = envelope(0.01, 0.01, 0.5, 0.1);
    env.trigger();
    // After enough samples, should reach sustain
    for _ in 0..2000 {
        advance(&mut env);
    }
    assert!(near(env.level(), 0.5, 0.05));
}

#[test]
fn envelope_release_to_idle() {
    let mut env = envelope(0.001, 0.001, 0.8, 0.01);
    env.trigger();
    for _ in 0..1000 {
        advance(&mut env);
    }
    env.release();
    for _ in 0..1000 {
        advance(&mut env);
    }
    assert!(env.is_idle());
}

#[test]
fn envelope_idle_stays_zero() {
    let mut env = AdsrEnvelope::new(shape(EnvelopePreset::piano()));
    for _ in 0..100 {
        let level = advance(&mut env);
        assert_eq!(level, 0.0);
    }
}

#[test]
fn presets_are_the_instruments_times_and_levels() {
    let s = shape(EnvelopePreset::piano());
    assert_eq!((s.attack, s.decay, s.sustain, s.release), (0.005, 0.3, 0.001, 0.4));
    let s = shape(EnvelopePreset::bass());
    assert_eq!((s.attack, s.decay, s.sustain, s.release), (0.01, 0.15, 0.6, 0.2));
    let s = shape(EnvelopePreset::strings());
    assert_eq!((s.attack, s.decay, s.sustain, s.release), (0.15, 0.1, 0.85, 0.5));
    let s = shape(EnvelopePreset::guitar());
    assert_eq!((s.attack, s.decay, s.sustain, s.release), (0.002, 0.4, 0.0, 0.3));
}

#[test]
fn piano_voice_renders_audio() {
    let mut voice = Piano::new();
    assert!(!voice.is_active());

    voice.note_on(69, 100); // A4
    assert!(voice.is_active());
    assert_eq!(voice.current_note(), Some(69));

    let mut buffer = [0.0_f32; 256];
    voice.render(&mut buffer, 44100);

    // Should produce non-zero output
    let max_sample = buffer.iter().cloned().fold(0.0_f32, f32::max);
    assert!(max_sample > 0.0, "Piano voice should produce sound");
}

#[test]
fn piano_voice_respects_velocity() {
    let mut loud = Piano::new();
    let mut quiet = Piano::new();

    loud.note_on(60, 127);
    quiet.note_on(60, 30);

    let mut buf_loud = [0.0_f32; 512];
    let mut buf_quiet = [0.0_f32; 512];
    loud.render(&mut buf_loud, 44100);
    quiet.render(&mut buf_quiet, 44100);
    assert!(peak(&buf_loud) > peak(&buf_quiet), "Higher velocity should produce louder output");
}

#[test]
fn piano_voice_note_off_silences() {
    let mut voice = Piano::new();
    voice.note_on(60, 100);

    let mut buffer = [0.0_f32; 1024];
    voice.render(&mut buffer, 44100);
    let peak_active = peak(&buffer);

    voice.note_off();
    // Render enough samples for release to complete
    let mut buffer = vec![0.0_f32; 44100]; // 1 second
    voice.render(&mut buffer, 44100);
    let peak_after = peak(&buffer[40000..]);

    assert!(peak_active > 0.0);
    assert!(peak_after < 0.01, "Voice should be near-silent after release");
    assert!(!voice.is_active());
}

#[test]
fn bass_produces_sound() {
    let mut voice = Bass::new();
    voice.note_on(36, 100); // C2
    assert!(voice.is_active());

    let mut buffer = [0.0_f32; 512];
    voice.render(&mut buffer, 44100);
    assert!(peak(&buffer) > 0.0, "Bass voice should produce sound");
}

#[test]
fn bass_respects_velocity() {
    let mut loud = Bass::new();
    let mut quiet = Bass::new();
    loud.note_on(36, 127);
    quiet.note_on(36, 20);

    let mut bl = [0.0_f32; 512];
    let mut bq = [0.0_f32; 512];
    loud.render(&mut bl, 44100);
    quiet.render(&mut bq, 44100);
    assert!(peak(&bl) > peak(&bq), "Higher velocity = louder");
}

#[test]
fn bass_silences_after_release() {
    let mut voice = Bass::new();
    voice.note_on(40, 100);
    voice.note_off();

    let mut buffer = vec![0.0_f32; 44100];
    voice.render(&mut buffer, 44100);
    assert!(peak(&buffer[40000..]) < 0.01, "Should be silent after release");
    assert!(!voice.is_active());
}

#[test]
fn string_produces_sound() {
    let mut voice = Strings::new();
    voice.note_on(67, 90); // G4
    assert!(voice.is_active());

    let mut buffer = [0.0_f32; 1024];
    voice.render(&mut buffer, 44100);
    assert!(peak(&buffer) > 0.0, "String voice should produce sound");
}

#[test]
fn string_slow_attack() {
    let mut voice = Strings::new();
    voice.note_on(67, 100);

    let mut early = [0.0_f32; 100];
    voice.render(&mut early, 44100);
    let mut later = [0.0_f32; 10000];
    voice.render(&mut later, 44100);

    // Slow attack: later should be louder than early
    assert!(peak(&later) > peak(&early), "String voice should ramp up slowly (slow attack)");
}

#[test]
fn string_silences_after_release() {
    let mut voice = Strings::new();
    voice.note_on(67, 100);

    // Let it reach sustain
    let mut warmup = vec![0.0_f32; 22050]; // 0.5s
    voice.render(&mut warmup, 44100);

    voice.note_off();
    let mut release = vec![0.0_f32; 44100]; // 1s
    voice.render(&mut release, 44100);
    assert!(peak(&release[40000..]) < 0.01);
    assert!(!voice.is_active());
}

#[test]
fn kick_drum_produces_boom() {
    let mut voice = Drums::new();
    voice.note_on(36, 100); // Bass drum
    assert!(voice.is_active());

    let mut buffer = [0.0_f32; 512];
    voice.render(&mut buffer, 44100);
    assert!(peak(&buffer) > 0.0, "Kick drum should produce sound");
}

#[test]
fn snare_produces_noise() {
    let mut voice = Drums::new();
    voice.note_on(38, 100); // Snare
    assert!(voice.is_active());

    let mut buffer = [0.0_f32; 512];
    voice.render(&mut buffer, 44100);
    assert!(peak(&buffer) > 0.0, "Snare should produce sound");
}

#[test]
fn hihat_is_short() {
    let mut voice = Drums::new();
    voice.note_on(42, 100); // Hi-hat

    let mut early = [0.0_f32; 500]; // ~11ms
    voice.render(&mut early, 44100);

    // After 200ms, should be silent
    let mut late = vec![0.0_f32; 8820]; // 200ms
    voice.render(&mut late, 44100);

    assert!(peak(&early) > 0.0, "Hi-hat should produce initial sound");
    assert!(peak(&late) < 0.01, "Hi-hat should decay quickly");
    assert!(!voice.is_active(), "Hi-hat should be inactive after decay");
}

#[test]
fn drum_velocity_affects_volume() {
    let mut loud = Drums::new();
    let mut quiet = Drums::new();
    loud.note_on(36, 127);
    quiet.note_on(36, 30);

    let mut bl = [0.0_f32; 256];
    let mut bq = [0.0_f32; 256];
    loud.render(&mut bl, 44100);
    quiet.render(&mut bq, 44100);
    assert!(peak(&bl) > peak(&bq), "Higher velocity = louder drum");
}

#[test]
fn crash_is_longer_than_hihat() {
    // Crash should decay slower than hi-hat
    let mut crash = Drums::new();
    let mut hat = Drums::new();
    crash.note_on(49, 100);
    hat.note_on(42, 100);

    // After ~100ms (4410 samples)
    let mut buf = vec![0.0_f32; 4410];
    crash.render(&mut buf, 44100);
    let crash_level = peak(&buf);

    let mut buf = vec![0.0_f32; 4410];
    hat.render(&mut buf, 44100);
    let hat_level = peak(&buf);

    assert!(crash_level >= hat_level, "Crash should sustain longer than hi-hat");
}

#[test]
fn guitar_produces_sound() {
    let mut voice = Guitar::new();
    voice.note_on(52, 100); // E3
    assert!(voice.is_active());

    let mut buffer = [0.0_f32; 512];
    voice.render(&mut buffer, 44100);
    assert!(peak(&buffer) > 0.0, "Guitar voice should produce sound");
}

#[test]
fn guitar_pluck_decays() {
    let mut voice = Guitar::new();
    voice.note_on(52, 100);

    // Early samples should be louder (pluck)
    let mut early = [0.0_f32; 1000];
    voice.render(&mut early, 44100);
    let early_peak = peak(&early);

    // Later samples should be quieter (decay)
    let mut late = vec![0.0_f32; 44100]; // 1 second
    voice.render(&mut late, 44100);
    let late_peak = peak(&late[40000..]);

    assert!(
        early_peak > late_peak,
        "Guitar should decay: early={early_peak:.4} late={late_peak:.4}"
    );
}

#[test]
fn a_plucked_string_rings_out_without_note_off() {
    let mut voice = Guitar::new();
    voice.note_on(52, 100);
    let mut buffer = vec![0.0_f32; 44100];
    voice.render(&mut buffer, 44100);
    assert_eq!(peak(&buffer[40000..]), 0.0);
    assert!(!voice.is_active());
    assert_eq!(voice.current_note(), None);
    // Letting go of it does not bring it back.
    voice.note_off();
    assert!(!voice.is_active());

    // Its slot returns to the pool.
    let mut ring = EventRing::new(4);
    let mut synth = Renderer::with_defaults();
    ring.push(MidiEvent::note_on(3, 52, 100, 0));
    for _ in 0..50 {
        synth.process_chunk(&mut ring);
    }
    assert_eq!(synth.synth.active_voice_count(), 0);
    assert_eq!(synth.synth.voice_slot(0), VoiceSlot::Idle);
}

#[test]
fn a_sustained_note_stays_active() {
    let mut voice = Bass::new();
    voice.note_on(36, 100);
    let mut buffer = vec![0.0_f32; 44100];
    voice.render(&mut buffer, 44100);
    assert!(voice.is_active());
    assert_eq!(voice.current_note(), Some(36));
}

#[test]
fn idle_voices_report_no_note() {
    let mut piano = Piano::new();
    piano.note_on(60, 100);
    let mut buffer = vec![0.0_f32; 44100];
    piano.render(&mut buffer[..1024], 44100);
    piano.note_off();
    piano.render(&mut buffer, 44100);
    assert!(!piano.is_active());
    assert_eq!(piano.current_note(), None);
    let mut drum = Drums::new();
    drum.note_on(42, 100);
    assert_eq!(drum.current_note(), Some(42));
    drum.render(&mut buffer, 44100);
    assert_eq!(drum.current_note(), None);
}

#[test]
fn the_push_follows_the_felt_direction() {
    // A flat pulse holds, even where the rate of change is not zero.
    let flat = feel_from(&[0.1, 0.5, 0.5]);
    assert_eq!(flat.felt(), FeltDirection::Flat);
    assert!(flat.rate() < 0.0);
    assert_eq!(flat.gain_multiplier(&SHAPE), 1.0);
    // A rise that slows down still pushes up, and a fall that slows down still pulls down.
    let rising = feel_from(&[0.0, 0.5, 0.55]);
    assert_eq!(rising.felt(), FeltDirection::Rising);
    assert!(near(rising.gain_multiplier(&SHAPE), 1.05, 1e-6));
    let falling = feel_from(&[1.0, 0.5, 0.45]);
    assert_eq!(falling.felt(), FeltDirection::Falling);
    assert!(near(falling.gain_multiplier(&SHAPE), 0.95, 1e-6));
}

#[test]
fn levels_stay_between_silence_and_full() {
    for (attack, decay, sustain, release) in
        [(0.0, 0.0, 0.5, 0.0), (0.001, 0.002, 0.0, 0.003), (0.01, 0.0, 1.0, 0.001)]
    {
        let mut env = envelope(attack, decay, sustain, release);
        for i in 0..5000 {
            if i % 700 == 0 {
                env.trigger();
            }
            if i % 700 == 400 || i % 1100 == 13 {
                env.release();
            }
            let idle = env.is_idle();
            let level = advance(&mut env);
            assert!((0.0..=1.0).contains(&level));
            if idle {
                assert!(level == 0.0 && env.is_idle());
            }
        }
    }
}

#[test]
fn guitar_respects_velocity() {
    let mut loud = Guitar::new();
    let mut quiet = Guitar::new();
    loud.note_on(52, 127);
    quiet.note_on(52, 20);

    let mut bl = [0.0_f32; 256];
    let mut bq = [0.0_f32; 256];
    loud.render(&mut bl, 44100);
    quiet.render(&mut bq, 44100);
    assert!(peak(&bl) > peak(&bq), "Higher velocity = louder pluck");
}

#[test]
fn guitar_silences_after_release() {
    let mut voice = Guitar::new();
    voice.note_on(52, 100);
    voice.note_off();

    let mut buffer = vec![0.0_f32; 44100];
    voice.render(&mut buffer, 44100);
    assert!(peak(&buffer[40000..]) < 0.01, "Should be silent after release");
    assert!(!voice.is_active());
}

#[test]
fn synth_produces_silence_without_events() {
    let mut ring = EventRing::new(64);
    let mut synth = Renderer::with_defaults();

    let output = synth.process_chunk(&mut ring);
    assert_eq!(peak(output), 0.0, "No events: silence");
}

#[test]
fn synth_produces_sound_with_note_on() {
    let mut ring = EventRing::new(64);
    let mut synth = Renderer::with_defaults();

    ring.push(MidiEvent::note_on(0, 69, 100, 0)); // A4 on piano channel

    let output = synth.process_chunk(&mut ring);
    assert!(peak(output) > 0.0, "Note on should produce sound");

    assert!(synth.synth.active_voice_count() > 0);
}

#[test]
fn synth_silences_after_note_off() {
    let mut ring = EventRing::new(64);
    let mut synth = Renderer::with_defaults();

    // Note on
    ring.push(MidiEvent::note_on(0, 60, 100, 0));
    let _ = synth.process_chunk(&mut ring);
    assert!(synth.synth.active_voice_count() > 0);

    // Note off
    ring.push(MidiEvent::note_off(0, 60, 0));

    // Process several chunks to let release complete
    for _ in 0..100 {
        let _ = synth.process_chunk(&mut ring);
    }

    assert_eq!(synth.synth.active_voice_count(), 0, "Voice should be idle after release");
}

#[test]
fn synth_handles_polyphony() {
    let mut ring = EventRing::new(256);
    let mut synth = Renderer::with_defaults();

    // Play multiple notes
    ring.push(MidiEvent::note_on(0, 60, 80, 0)); // C
    ring.push(MidiEvent::note_on(0, 64, 80, 0)); // E
    ring.push(MidiEvent::note_on(0, 67, 80, 0)); // G

    let output: Vec<f32> = synth.process_chunk(&mut ring).to_vec();
    let voice_count = synth.synth.active_voice_count();

    assert!(voice_count >= 3, "Should have 3 active voices");
    assert!(peak(&output) > 0.0, "Should produce sound");
}

#[test]
fn synth_uses_correct_voice_per_channel() {
    let mut ring = EventRing::new(64);
    let mut synth = Renderer::with_defaults();

    // Piano (ch 0) and Bass (ch 1)
    ring.push(MidiEvent::note_on(0, 69, 100, 0));
    ring.push(MidiEvent::note_on(1, 36, 100, 0)); // C2

    let output: Vec<f32> = synth.process_chunk(&mut ring).to_vec();
    let voice_count = synth.synth.active_voice_count();

    // Both should produce sound
    assert!(voice_count >= 2);
    assert!(peak(&output) > 0.0);
}

#[test]
fn synth_memory_is_bounded() {
    // The key property: no matter how many chunks we process,
    // the number of voice slots stays the same.
    let mut ring = EventRing::new(64);
    let mut synth = Renderer::with_defaults();
    let initial_slots = synth.synth.max_voices();

    // Process many chunks with continuous notes
    for i in 0..1000u64 {
        ring.push(MidiEvent::note_on(0, (i % 12 + 60) as u8, 100, i * 1000));
        let _ = synth.process_chunk(&mut ring);
    }

    assert_eq!(
        synth.synth.max_voices(),
        initial_slots,
        "Voice slots should not grow: O(1) memory"
    );
}

#[test]
fn feel_enabled_still_renders() {
    let mut ring = EventRing::new(64);
    let mut synth = Renderer::with_defaults();
    synth.synth.enable_feel(new_ear());

    // Silence with the ear enabled: still silence.
    let output = synth.process_chunk(&mut ring);
    assert_eq!(peak(output), 0.0, "feel enabled + no events: silence");

    // A note with the ear enabled: still renders sound.
    ring.push(MidiEvent::note_on(0, 69, 100, 0));
    let output = synth.process_chunk(&mut ring);
    assert!(peak(output) > 0.0, "feel enabled + note on: sound");
}

#[test]
fn feed_dials_shapes_gain_when_feel_enabled() {
    let mut synth = Renderer::with_defaults();
    synth.synth.enable_feel(new_ear());

    synth.feed_dials(DialsReadings::new(0.3, 0.0));
    synth.feed_dials(DialsReadings::new(0.6, 0.0));
    synth.feed_dials(DialsReadings::new(0.9, 0.0));

    let feel = synth.synth.feel_mut().unwrap();
    assert_eq!(feel.felt(), FeltDirection::Rising);
    assert!(feel.gain_multiplier(&SHAPE) > 1.0, "rising dials should push the render gain up");
}

#[test]
fn feed_dials_is_noop_when_feel_disabled() {
    let mut synth = Renderer::with_defaults();
    assert!(synth.synth.feel_mut().is_none());
    synth.feed_dials(DialsReadings::new(0.9, 0.5));
    assert!(synth.synth.feel_mut().is_none());
}

#[test]
fn feel_disabled_is_fixed_gain() {
    // A default synthesizer has no feel: fixed master gain, no ear.
    let mut synth = Synthesizer::with_defaults(0.7_f32);
    assert!(synth.feel_mut().is_none());
    assert!(synth.feed_energy(1.0, &EAR).is_none()); // no-op when disabled
    assert!(synth.feel_mut().is_none());
}

#[test]
fn feed_energy_reaches_an_enabled_ear() {
    let mut synth = Synthesizer::with_defaults(0.7_f32);
    synth.enable_feel(new_ear());
    for e in [0.1, 0.2, f32::NAN, 0.4] {
        let heard = synth.feed_energy(e, &EAR).unwrap();
        assert_eq!(heard.finite, e.is_finite());
    }
    let ear = synth.feel_mut().unwrap();
    assert_eq!(ear.n_readings(), 4);
    assert_eq!(ear.recent(1), Some(0.2));
    assert_eq!(ear.felt(), FeltDirection::Rising);
}

#[test]
fn loudness_stays_finite_when_the_sum_drifts() {
    // Rounding leaves the running sum of a loud stream that falls silent a little off zero.
    let mut f = FeelPulse::with_params(DEFAULT_NOISE_FLOOR, 0.0, 3);
    for e in [0.1, 0.7, 1e7, 0.3, 0.2, 0.1, 0.0, 0.0, 0.0, 0.0] {
        f.push(e, &EAR);
    }
    assert!(f.loudness_db(&mean, &loudness).is_finite());
    for _ in 0..10 {
        f.push(f32::MAX, &EAR);
        let p = f.perception_check(&mean, &loudness);
        assert!(p.energy.is_finite() && p.loudness_db.is_finite());
    }
}

#[test]
fn a_glitch_is_the_last_energy_again() {
    for x in [f32::NAN, f32::INFINITY, f32::NEG_INFINITY] {
        for series in [vec![], vec![0.4], vec![0.2, 0.9, 0.1]] {
            let mut f = feel_from(&series);
            let mut g = f.clone();
            let last = g.last_energy();
            f.push(x, &EAR);
            g.push(last, &EAR);
            assert_eq!(f.last_energy(), last);
            assert_eq!(f.direction(), 0.0);
            let p = f.perception_check(&mean, &loudness);
            let q = g.perception_check(&mean, &loudness);
            assert_eq!((p.n_readings, p.energy, p.loudness_db), (q.n_readings, q.energy, q.loudness_db));
            assert_eq!((p.tempo_frames, p.direction, p.rate), (q.tempo_frames, q.direction, q.rate));
            assert_eq!(p.felt, q.felt);
            assert_eq!(f.gain_multiplier(&SHAPE), g.gain_multiplier(&SHAPE));
        }
    }
}

#[test]
fn direction_and_rate_are_those_of_the_newest_frames() {
    let frames = [0.3, f32::NAN, 0.5, 0.1, 0.9, f32::INFINITY, 0.2, 0.25];
    let mut f = FeelPulse::with_params(DEFAULT_NOISE_FLOOR, 0.0, 4);
    let mut counted: Vec<f32> = Vec::new();
    for e in frames {
        f.push(e, &EAR);
        counted.push(if e.is_finite() { e } else { *counted.last().unwrap_or(&0.0) });
        let newest = &counted[counted.len().saturating_sub(4)..];
        assert_eq!(f.direction(), direction_of(newest, DEFAULT_NOISE_FLOOR));
        assert_eq!(f.rate(), rate_of(newest, DEFAULT_NOISE_FLOOR));
        let felt = FeltDirection::from_signal(f.direction(), DEFAULT_NOISE_FLOOR, &gauge);
        assert_eq!(f.felt(), felt);
    }
}

#[test]
fn feeding_a_deaf_renderer_changes_nothing() {
    let mut fed = Renderer::with_defaults();
    let mut left = Renderer::with_defaults();
    let mut ring_a = EventRing::new(16);
    let mut ring_b = EventRing::new(16);
    for i in 0..10u8 {
        let event = MidiEvent::note_on(i % 4, 50 + i, 100, 0);
        ring_a.push(event);
        ring_b.push(event);
        fed.synth.feed_energy(0.1 * i as f32, &EAR);
        fed.feed_dials(DialsReadings::new(0.9, 0.5));
        let a = fed.process_chunk(&mut ring_a).to_vec();
        assert_eq!(a, left.process_chunk(&mut ring_b));
        assert!(fed.synth.feel_mut().is_none());
    }
}

#[test]
fn a_reused_slot_sounds_as_a_new_one() {
    let mut bank = VoiceBank::new();
    for voice in [VoiceType::Guitar, VoiceType::Bass, VoiceType::Drums, VoiceType::Guitar] {
        let mut used = [0.0_f32; 300];
        bank.start(voice, 52, 100);
        bank.voice().render(&mut used, 44100);
        let mut fresh = [0.0_f32; 300];
        let mut other = VoiceBank::new();
        other.start(voice, 52, 100);
        other.voice().render(&mut fresh, 44100);
        assert_eq!(used, fresh);
    }
}
