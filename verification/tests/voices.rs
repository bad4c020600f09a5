//! Envelopes, drums, strings and noise on plain numbers.

use fleet_audio::feel::{
    direction, rate_of_change, DialsReadings, EarArithmetic, FeelPulse, FeltDirection, Gauge, Heard,
    Push, RenderState, ShapeArithmetic,
};
use fleet_audio::voice::drums::{DrumArithmetic, DrumTick, DrumType, DrumVoice, KickPitch};
use fleet_audio::voice::guitar::{GuitarVoice, MAX_DELAY};
use fleet_audio::voice::noise::next_noise;
use fleet_audio::voice::{AdsrEnvelope, EnvelopePhase, EnvelopeShape, RampArithmetic, VoiceGate};
use fleet_audio::window::RollingWindow;

fn shape() -> EnvelopeShape<i32> {
    EnvelopeShape {
        attack: 4,
        decay: 2,
        sustain: 50,
        release: 5,
        sample_rate: 1,
        silence: 0,
        full: 100,
        sustains: true,
    }
}

/// One sample on a ramp of whole numbers.
fn glide(level: i32, time: i32, sample_rate: i32, from: i32, to: i32) -> i32 {
    level + (to - from) / (time * sample_rate)
}

fn advance(env: &mut AdsrEnvelope<i32>) -> i32 {
    env.process(&RampArithmetic { lasts: |t| t > 0, glide, le: |a, b| a <= b })
}

fn step(gate: &mut VoiceGate<i32>) -> i32 {
    gate.process(&RampArithmetic { lasts: |t| t > 0, glide, le: |a, b| a <= b })
}

#[test]
fn envelope_walks_its_segments() {
    let mut env = AdsrEnvelope::new(shape());
    assert!(env.is_idle());
    assert_eq!(advance(&mut env), 0);
    env.release();
    assert!(env.is_idle());
    env.trigger();
    assert_eq!((advance(&mut env), env.phase()), (25, EnvelopePhase::Attack));
    assert_eq!((advance(&mut env), advance(&mut env)), (50, 75));
    assert_eq!((advance(&mut env), env.phase()), (100, EnvelopePhase::Decay));
    assert_eq!((advance(&mut env), env.phase()), (75, EnvelopePhase::Decay));
    assert_eq!((advance(&mut env), env.phase()), (50, EnvelopePhase::Sustain));
    assert_eq!((advance(&mut env), env.phase()), (50, EnvelopePhase::Sustain));
    env.release();
    assert_eq!(env.release_start_level(), 50);
    let levels: Vec<i32> = (0..6).map(|_| advance(&mut env)).collect();
    assert_eq!(levels, vec![40, 30, 20, 10, 0, 0]);
    assert!(env.is_idle());
    assert_eq!((env.level(), env.shape().sustain), (0, 50));
}

#[test]
fn segments_without_time_jump_to_their_end() {
    let mut env = AdsrEnvelope::new(EnvelopeShape { attack: 0, decay: 0, release: 0, ..shape() });
    env.trigger();
    assert_eq!((advance(&mut env), env.phase()), (100, EnvelopePhase::Decay));
    assert_eq!((advance(&mut env), env.phase()), (50, EnvelopePhase::Sustain));
    env.release();
    assert_eq!((advance(&mut env), env.phase()), (0, EnvelopePhase::Idle));
}

#[test]
fn trigger_restarts_from_silence() {
    let mut env = AdsrEnvelope::new(shape());
    env.trigger();
    for _ in 0..5 {
        advance(&mut env);
    }
    assert_eq!(env.level(), 75);
    env.trigger();
    assert_eq!((env.phase(), env.level()), (EnvelopePhase::Attack, 0));
}

#[test]
fn a_gate_remembers_its_note() {
    let mut gate = VoiceGate::new(shape());
    assert_eq!(gate.current_note(), None);
    assert!(!gate.is_active());
    gate.note_on(60);
    assert_eq!(gate.current_note(), Some(60));
    assert!(gate.is_active());
    assert_eq!(step(&mut gate), 25);
    gate.note_off();
    assert_eq!(gate.envelope().release_start_level(), 25);
    assert_eq!(gate.current_note(), Some(60));
    for _ in 0..5 {
        step(&mut gate);
    }
    assert!(!gate.is_active());
    assert_eq!(gate.current_note(), None);
    // Letting go again changes nothing.
    gate.note_off();
    assert!(!gate.is_active());
}

#[test]
fn a_gate_that_sustains_silence_rings_out() {
    let mut gate = VoiceGate::new(EnvelopeShape { sustain: 0, sustains: false, ..shape() });
    gate.note_on(60);
    for _ in 0..4 {
        step(&mut gate);
    }
    assert!(gate.is_active());
    assert_eq!((step(&mut gate), step(&mut gate)), (50, 0));
    assert_eq!(gate.envelope().phase(), EnvelopePhase::Sustain);
    assert!(!gate.is_active() && gate.envelope().is_rung_out());
    assert_eq!(gate.current_note(), None);
    gate.note_off();
    assert!(!gate.is_active());
    gate.note_on(61);
    assert_eq!((gate.is_active(), gate.current_note()), (true, Some(61)));
}

fn xorshifted(mut x: u32) -> u32 {
    x ^= x << 13;
    x ^= x >> 17;
    x ^= x << 5;
    x
}

#[test]
fn noise_words() {
    assert_eq!(next_noise(1), 270369);
    assert_eq!(next_noise(270369), 67634689);
    assert_eq!(next_noise(0), 0);
    let mut word = 67890;
    for _ in 0..1000 {
        assert_eq!(next_noise(word), xorshifted(word));
        word = next_noise(word);
        assert_ne!(word, 0);
    }
    assert_ne!(next_noise(12345), next_noise(12346));
}

#[test]
fn drums_of_notes() {
    for note in 0..=255u8 {
        let expected = match note {
            38 | 40 => DrumType::Snare,
            42 | 46 => DrumType::HiHat,
            49 | 57 => DrumType::Crash,
            _ => DrumType::Kick,
        };
        assert_eq!(DrumVoice::<i32>::note_to_drum(note), expected);
    }
}

#[test]
fn drum_sounds() {
    let kick = DrumType::Kick.sound();
    assert_eq!(kick.decay_ppm, 500);
    assert_eq!(kick.pitch, Some(KickPitch { start_hz: 150, target_hz: 50, drop_ppm: 1000 }));
    assert_eq!((DrumType::Snare.sound().decay_ppm, DrumType::Snare.sound().pitch), (2000, None));
    assert_eq!(DrumType::HiHat.sound().decay_ppm, 10_000);
    assert_eq!(DrumType::Crash.sound().decay_ppm, 300);
}

fn beat(drum: &mut DrumVoice<i32>) -> (DrumTick, i32) {
    drum.render_sample(&DrumArithmetic {
        is_audible: |level| level > 1,
        subtract: |a, b| a - b,
        is_negative: |level| level < 0,
    })
}

fn strike(drum: &mut DrumVoice<i32>, note: u8, level: i32) {
    drum.note_on(note, level, |ppm: u32| ppm as i32);
}

#[test]
fn hits_of_a_drum_sound_alike() {
    let mut drum = DrumVoice::new(0);
    assert!(!drum.is_active());
    assert_eq!(drum.current_note(), None);
    strike(&mut drum, 38, 4001);
    let first = DrumTick::Snare { noise: xorshifted(67890) };
    let second = DrumTick::Snare { noise: xorshifted(xorshifted(67890)) };
    // A snare falls by 2000 per sample.
    assert_eq!((beat(&mut drum), beat(&mut drum)), ((first, 4001), (second, 2001)));
    assert_eq!((drum.current_note(), drum.is_active()), (Some(38), true));
    assert_eq!(beat(&mut drum), (DrumTick::Silent, 1));
    assert!(!drum.is_active());
    assert_eq!(drum.current_note(), None);
    strike(&mut drum, 38, 9000);
    assert!(drum.is_active());
    assert_eq!((beat(&mut drum).0, beat(&mut drum).0), (first, second));
    strike(&mut drum, 36, 9000);
    assert_eq!(beat(&mut drum), (DrumTick::Kick, 9000));
    strike(&mut drum, 46, 9000);
    // The level does not fall below silence.
    assert_eq!(beat(&mut drum), (DrumTick::HiHat { noise: xorshifted(67890) }, 9000));
    assert_eq!(beat(&mut drum), (DrumTick::Silent, 0));
    strike(&mut drum, 57, 9000);
    assert_eq!(beat(&mut drum), (DrumTick::Crash { noise: xorshifted(67890) }, 9000));
    assert_eq!((drum.current_note(), beat(&mut drum).1), (Some(57), 8700));
    // Letting go makes the decay faster.
    drum.note_off(|rate| rate * 4);
    assert_eq!((beat(&mut drum).1, beat(&mut drum).1), (8400, 7200));
}

/// An envelope that jumps to full and stays there.
fn samples() -> EnvelopeShape<u64> {
    EnvelopeShape {
        attack: 0,
        decay: 0,
        sustain: 1,
        release: 0,
        sample_rate: 1,
        silence: 0,
        full: 1,
        sustains: true,
    }
}

fn tap<B: Fn(u64, u64) -> u64>(string: &mut GuitarVoice<u64>, blend: B) -> u64 {
    let ops = RampArithmetic {
        lasts: |t| t > 0,
        glide: |level: u64, _: u64, _: u64, _: u64, _: u64| level,
        le: |a, b| a <= b,
    };
    string.render_sample(&ops, blend, |tap, level| tap * level)
}

#[test]
fn a_string_repeats_with_its_period() {
    let mut string: GuitarVoice<u64> = GuitarVoice::new(samples());
    assert_eq!(tap(&mut string, |a, _| a), 0);
    string.note_on(52, 3, |word: u32| word as u64);
    let w1 = xorshifted(12345);
    let w2 = xorshifted(w1);
    let w3 = xorshifted(w2);
    let pluck = [w1 as u64, w2 as u64, w3 as u64];
    // Feeding back the current tap keeps the line, so that it repeats.
    for i in 0..9 {
        assert_eq!(tap(&mut string, |a, _| a), pluck[i % 3]);
    }
    // Feeding back a blend of the current and the next tap changes the next round.
    for i in 0..3 {
        assert_eq!(tap(&mut string, |a, b| a + b), pluck[i]);
    }
    assert_eq!(tap(&mut string, |a, _| a), pluck[0] + pluck[1]);
    assert_eq!(tap(&mut string, |a, _| a), pluck[1] + pluck[2]);
    assert_eq!(tap(&mut string, |a, _| a), pluck[2] + pluck[0] + pluck[1]);
    // A reset string starts from the same noise again.
    string.reset();
    assert_eq!((string.current_note(), string.is_active()), (None, false));
    assert_eq!(tap(&mut string, |a, _| a), 0);
    string.note_on(52, 3, |word: u32| word as u64);
    assert_eq!(tap(&mut string, |a, _| a), pluck[0]);
}

#[test]
fn a_muted_string_stands_still() {
    let mut string: GuitarVoice<u64> = GuitarVoice::new(EnvelopeShape { attack: 1, ..samples() });
    string.note_on(52, 3, |word: u32| word as u64);
    // The attack lasts and glides nowhere: the level is silence, and the line is not read.
    for _ in 0..5 {
        assert_eq!(tap(&mut string, |_, _| 77), 0);
    }
    string.note_on(52, 3, |word: u32| word as u64);
    assert!(string.is_active());
}

#[test]
fn string_lengths_are_clamped() {
    for (period, length) in [(0, 2), (1, 2), (2, 2), (MAX_DELAY, MAX_DELAY), (9999, MAX_DELAY)] {
        let mut string: GuitarVoice<u64> = GuitarVoice::new(samples());
        string.note_on(1, period, |word: u32| word as u64);
        let first = tap(&mut string, |a, _| a);
        for _ in 1..length {
            tap(&mut string, |a, _| a);
        }
        assert_eq!(tap(&mut string, |a, _| a), first);
        assert_eq!(string.current_note(), Some(1));
        assert!(string.is_active());
        string.note_off();
        assert_eq!(string.envelope().phase(), EnvelopePhase::Release);
        assert_eq!(tap(&mut string, |a, _| a), 0);
        assert!(!string.is_active());
        assert_eq!(string.current_note(), None);
    }
}

#[test]
fn the_window_rolls() {
    let mut window = RollingWindow::new(2);
    assert_eq!(window.push(1), None);
    assert_eq!(window.push(2), None);
    assert_eq!(window.push(3), Some(1));
    assert_eq!(window.len(), 2);
    assert_eq!((window.recent(0), window.recent(1), window.recent(2)), (Some(&3), Some(&2), None));
    let mut copy = window.clone();
    assert_eq!((copy.pop(), copy.pop(), copy.pop()), (Some(2), Some(3), None));
    assert_eq!(window.len(), 2);
}

#[test]
fn movements_count_from_two_and_three_readings() {
    let way = |series: &[i32]| direction(series, 2, 0, |a, b| a - b, gauge);
    assert_eq!((way(&[]), way(&[5]), way(&[5, 7]), way(&[9, 5, 6])), (0, 0, 2, 0));
    assert_eq!(way(&[100, 7, 1]), -6);
    let rate = |series: &[i32]| rate_of_change(series, 2, 0, |a, b, c| a - 2 * b + c, gauge);
    assert_eq!((rate(&[1, 9]), rate(&[1, 2, 3]), rate(&[1, 2, 9])), (0, 0, 6));
    assert_eq!(rate(&[50, 1, 2, 1]), -2);
    assert_eq!(FeltDirection::from_signal(3, 2, &gauge), FeltDirection::Rising);
    assert_eq!(FeltDirection::from_signal(-3, 2, &gauge), FeltDirection::Falling);
    assert_eq!(FeltDirection::from_signal(2, 2, &gauge), FeltDirection::Flat);
}

fn gauge(value: i32, floor: i32) -> Gauge {
    Gauge { within: value.abs() < floor, rises: value > floor, falls: value < -floor }
}

/// Hear a frame: 1000 and more is a glitch, and a frame of 5 or more stands out of a mean that
/// is left out of account.
fn hear(ear: &mut FeelPulse<i32>, frame: i32) -> Heard<i32> {
    let ops = EarArithmetic {
        is_finite: |e| e < 1000,
        add: |a, b| a + b,
        subtract: |a, b| a - b,
        second_difference: |a, b, c| a - 2 * b + c,
        mean: |sum: i32, n: usize| sum / n as i32,
        stands_out: |e, _: i32| e >= 5,
        smooth: |tempo: i32, frames: u64| tempo * 100 + frames as i32,
        gauge,
    };
    ear.push(frame, &ops)
}

#[test]
fn the_ear_reads_its_newest_frames() {
    let mut ear = FeelPulse::new(2, 0);
    let mut read = |frame: i32| {
        hear(&mut ear, frame);
        (ear.direction(), ear.rate(), ear.felt())
    };
    assert_eq!(read(10), (0, 0, FeltDirection::Flat));
    assert_eq!(read(15), (5, 0, FeltDirection::Rising));
    assert_eq!(read(30), (15, 10, FeltDirection::Rising));
    assert_eq!(read(1777), (0, -15, FeltDirection::Flat));
    // As large as the floor is a movement, but not above it.
    assert_eq!(read(32), (2, 2, FeltDirection::Flat));
    assert_eq!(read(20), (-12, -14, FeltDirection::Falling));
}

#[test]
fn the_ear_keeps_sum_and_mean() {
    let mut ear = FeelPulse::with_params(2, 0, 3);
    let mean = |sum: i32, n: usize| sum / n as i32;
    assert_eq!(ear.energy_mean(&mean), 0);
    let sums: Vec<(i32, i32)> =
        [3, 6, 12, 30, 2000].iter().map(|e| hear(&mut ear, *e)).map(|h| (h.energy_sum, h.mean)).collect();
    assert_eq!(sums, vec![(3, 3), (9, 4), (21, 7), (48, 16), (72, 24)]);
    assert_eq!((ear.energy_sum(), ear.energy_mean(&mean)), (72, 24));
    assert_eq!(ear.loudness_db(&mean, &|e| e * 2), 48);
    let p = ear.perception_check(&mean, &|e| e * 2);
    assert_eq!((p.n_readings, p.energy, p.loudness_db, p.direction, p.rate), (3, 24, 48, 0, -18));
    let mut copy = ear.clone();
    hear(&mut copy, 0);
    assert_eq!((copy.last_energy(), ear.last_energy()), (0, 30));
}

#[test]
fn the_tempo_counts_from_the_second_onset() {
    let mut ear = FeelPulse::new(2, 0);
    let bpm = |ear: &FeelPulse<i32>, fps: i32| ear.tempo_bpm(fps, &|x| x > 0, &|f, t| f * 60 / t);
    hear(&mut ear, 9);
    assert_eq!(bpm(&ear, 1), 0);
    hear(&mut ear, 1);
    hear(&mut ear, 9);
    assert_eq!((bpm(&ear, 1), bpm(&ear, 3), bpm(&ear, 0)), (30, 90, 0));
}

#[test]
fn the_output_goes_the_felt_way() {
    let push = |value: i32| Push { value, raises: value > 0, lowers: value < 0 };
    let ops = ShapeArithmetic {
        combine: |direction: i32, rate: i32| push(direction + rate),
        steady: |direction: i32| push(direction),
        multiplier: |push: i32| 100 + push,
        scale: |level: i32, m: i32| level * m,
    };
    let mut ear = FeelPulse::new(2, 0);
    assert_eq!(ear.gain_multiplier(&ops), 100);
    let mut felt = |frame: i32| {
        hear(&mut ear, frame);
        ear.gain_multiplier(&ops)
    };
    assert_eq!((felt(10), felt(20)), (100, 110));
    // Faster still: direction 20, rate 10. Then slower: direction 5, rate -15.
    assert_eq!((felt(40), felt(45)), (130, 105));
    // Flat, with a rate of -5.
    assert_eq!(felt(45), 100);
    // Falling: direction -20, rate -20. Then slower: direction -4, rate 16.
    assert_eq!((felt(25), felt(21)), (60, 96));
    let shaped = ear.shape_output(RenderState::new(2, 3), &ops);
    assert_eq!((shaped.gain, shaped.velocity), (192, 288));
}

#[test]
fn dials_are_tilted_into_an_energy() {
    let ops = EarArithmetic {
        is_finite: |_: i32| true,
        add: |a, b| a + b,
        subtract: |a, b| a - b,
        second_difference: |a, b, c| a - 2 * b + c,
        mean: |sum: i32, n: usize| sum / n as i32,
        stands_out: |_: i32, _: i32| false,
        smooth: |tempo: i32, _: u64| tempo,
        gauge,
    };
    let tilt = |volume: i32, mood: i32| 10 * volume + mood;
    let mut ear = FeelPulse::from_dials(DialsReadings::new(4, 2), 2, 0, tilt, &ops);
    assert_eq!((ear.n_readings(), ear.last_energy()), (1, 42));
    assert_eq!(ear.push_dials(DialsReadings::new(5, -1), tilt, &ops).frame, 49);
    assert_eq!((ear.direction(), ear.felt()), (7, FeltDirection::Rising));
}

#[test]
fn the_first_onset_shows_no_tempo() {
    let mut ear = FeelPulse::new(1, 0);
    assert!(ear.has_room());
    hear(&mut ear, 5);
    assert_eq!((ear.onset_count(), ear.frames_since_onset(), ear.tempo_frames()), (1, 0, 0));
    // Staying above is no new onset.
    hear(&mut ear, 5);
    assert_eq!((ear.onset_count(), ear.frames_since_onset()), (1, 1));
    hear(&mut ear, 1);
    hear(&mut ear, 5);
    assert_eq!((ear.onset_count(), ear.frames_since_onset(), ear.tempo_frames()), (2, 0, 3));
    hear(&mut ear, 1);
    hear(&mut ear, 7);
    assert_eq!((ear.onset_count(), ear.tempo_frames()), (3, 302));
}

#[test]
fn a_history_holds_at_least_three_frames() {
    let mut ear = FeelPulse::with_params(1, 0, 0);
    for e in 1..=4 {
        let heard = hear(&mut ear, e);
        assert_eq!(heard.evicted, if e == 4 { Some(1) } else { None });
    }
    assert_eq!(ear.n_readings(), 3);
    // A glitch of any length holds the level.
    for _ in 0..5 {
        let heard = hear(&mut ear, 1000);
        assert_eq!((heard.frame, heard.finite, heard.energy), (1000, false, 4));
    }
    assert_eq!((ear.recent(0), ear.recent(1), ear.recent(2)), (Some(4), Some(4), Some(4)));
}
