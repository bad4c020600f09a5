//! The voice pool, without sound.

use fleet_audio::config::Config;
use fleet_audio::midi::{MidiEvent, VoiceType};
use fleet_audio::mix::MixBuffer;
use fleet_audio::ring::EventRing;
use fleet_audio::synth::{Synthesizer, VoiceCommand, VoiceSlot};

fn small(max_voices: usize) -> Synthesizer<u8> {
    let config = Config { max_voices, ..Config::with_gain(7u8) };
    Synthesizer::new(&config)
}

fn chunk(synth: &mut Synthesizer<u8>, ring: &mut EventRing) -> Vec<VoiceCommand> {
    let mut commands = vec![VoiceCommand::Release { slot: 99 }];
    synth.process_chunk(ring, 1000, &mut commands);
    commands
}

#[test]
fn default_configuration() {
    let c = Config::with_gain(7u8);
    assert_eq!((c.sample_rate, c.chunk_size, c.max_voices, c.ring_capacity), (44_100, 1024, 64, 1024));
    assert_eq!(c.master_gain, 7);
    assert!(c.output_wav.is_none() && c.jsonl_spool.is_none());
    assert!(c.http_port.is_none() && c.dials_endpoint.is_none());
    let s = Synthesizer::with_defaults(7u8);
    assert_eq!((s.sample_rate(), s.chunk_size(), s.max_voices()), (44_100, 1024, 64));
    assert_eq!((s.master_gain(), s.current_time_us(), s.active_voice_count()), (7, 0, 0));
}

#[test]
fn a_chunk_starts_releases_and_renders_in_order() {
    let mut ring = EventRing::new(16);
    let mut synth = small(4);
    ring.push(MidiEvent::note_on(3, 52, 90, 0));
    ring.push(MidiEvent::note_on(9, 36, 100, 0));
    ring.push(MidiEvent::note_off(3, 52, 0));
    let commands = chunk(&mut synth, &mut ring);
    assert_eq!(
        commands,
        vec![
            VoiceCommand::Start { slot: 0, voice: VoiceType::Guitar, note: 52, velocity: 90 },
            VoiceCommand::Start { slot: 1, voice: VoiceType::Drums, note: 36, velocity: 100 },
            VoiceCommand::Release { slot: 0 },
            VoiceCommand::Render { slot: 0 },
            VoiceCommand::Render { slot: 1 },
        ]
    );
    assert!(ring.is_empty());
    assert_eq!(synth.current_time_us(), 1000);
    assert_eq!(synth.active_voice_count(), 2);
}

#[test]
fn note_off_needs_note_and_channel() {
    let mut synth = small(4);
    synth.handle_event(MidiEvent::note_on(0, 60, 100, 0));
    synth.handle_event(MidiEvent::note_on(0, 60, 100, 0));
    assert_eq!(synth.handle_event(MidiEvent::note_off(1, 60, 0)), None);
    assert_eq!(synth.handle_event(MidiEvent::note_off(0, 61, 0)), None);
    // The first of two voices is released, again and again.
    let release = Some(VoiceCommand::Release { slot: 0 });
    assert_eq!(synth.handle_event(MidiEvent::note_off(0, 60, 0)), release);
    assert_eq!(synth.handle_event(MidiEvent::note_off(0, 60, 0)), release);
    assert_eq!(synth.active_voice_count(), 2);
}

#[test]
fn a_note_off_passes_over_a_voice_that_rang_out() {
    let mut synth = small(4);
    synth.handle_event(MidiEvent::note_on(0, 60, 100, 0));
    synth.handle_event(MidiEvent::note_on(0, 60, 100, 0));
    synth.voice_finished(0);
    let command = synth.handle_event(MidiEvent::note_off(0, 60, 0));
    assert_eq!(command, Some(VoiceCommand::Release { slot: 1 }));
}

#[test]
fn a_full_pool_steals_slot_zero() {
    let mut synth = small(2);
    synth.handle_event(MidiEvent::note_on(0, 60, 100, 0));
    synth.handle_event(MidiEvent::note_on(0, 61, 100, 0));
    let command = synth.handle_event(MidiEvent::note_on(1, 62, 50, 0));
    let start = VoiceCommand::Start { slot: 0, voice: VoiceType::Bass, note: 62, velocity: 50 };
    assert_eq!(command, Some(start));
    assert_eq!(synth.max_voices(), 2);
    let stolen =
        VoiceSlot::Active { voice: VoiceType::Bass, channel: 1, note: 62, sounding: true };
    assert_eq!(synth.voice_slot(0), stolen);
}

#[test]
fn a_finished_voice_keeps_its_slot_until_the_next_sweep() {
    let mut ring = EventRing::new(16);
    let mut synth = small(1);
    ring.push(MidiEvent::note_on(0, 60, 100, 0));
    chunk(&mut synth, &mut ring);
    synth.voice_finished(0);
    assert_eq!(synth.active_voice_count(), 0);
    let rung = VoiceSlot::Active { voice: VoiceType::Piano, channel: 0, note: 60, sounding: false };
    assert_eq!(synth.voice_slot(0), rung);
    assert_eq!(chunk(&mut synth, &mut ring), vec![]);
    assert_eq!(synth.voice_slot(0), VoiceSlot::Idle);
    // Reporting an idle slot changes nothing.
    synth.voice_finished(0);
    assert_eq!(synth.voice_slot(0), VoiceSlot::Idle);
}

#[test]
fn a_chunk_takes_sixty_four_events() {
    let mut ring = EventRing::new(128);
    let mut synth = small(100);
    for i in 0..100 {
        ring.push(MidiEvent::note_on(0, i, 100, 0));
    }
    let commands = chunk(&mut synth, &mut ring);
    assert_eq!(commands.len(), 128);
    assert_eq!(ring.len(), 36);
    assert_eq!(synth.active_voice_count(), 64);
    assert_eq!(ring.pop().unwrap().note, 64);
}

#[test]
fn an_empty_pool_takes_note_offs() {
    let mut ring = EventRing::new(4);
    let mut synth = small(0);
    ring.push(MidiEvent::note_off(0, 60, 0));
    assert_eq!(chunk(&mut synth, &mut ring), vec![]);
    assert!(ring.is_empty());
    assert_eq!(synth.max_voices(), 0);
}

#[test]
fn status_is_due_at_full_multiples() {
    let mut ring = EventRing::new(4);
    let mut synth = small(1);
    let mut commands = Vec::new();
    assert!(!synth.status_due());
    synth.process_chunk(&mut ring, 9_999_999, &mut commands);
    assert!(!synth.status_due());
    synth.process_chunk(&mut ring, 1, &mut commands);
    assert!(synth.status_due());
    synth.process_chunk(&mut ring, 10_000_000, &mut commands);
    assert!(synth.status_due());
}

#[test]
fn the_pool_rings_out() {
    let mut ring = EventRing::new(16);
    let mut synth = small(3);
    for note in 60..63 {
        ring.push(MidiEvent::note_on(0, note, 100, 0));
    }
    assert_eq!(chunk(&mut synth, &mut ring).len(), 6);
    for slot in 0..3 {
        synth.voice_finished(slot);
    }
    ring.push(MidiEvent::note_off(0, 61, 0));
    // The finished voice has no note to release, and nothing is rendered.
    assert_eq!(chunk(&mut synth, &mut ring), vec![]);
    for slot in 0..3 {
        assert_eq!(synth.voice_slot(slot), VoiceSlot::Idle);
    }
}

#[test]
fn the_mix_buffer_keeps_its_size() {
    let mut mix = MixBuffer::new(3, 0);
    assert_eq!(mix.samples(), [0, 0, 0]);
    mix.mix_in(&[0, 7, 50], |a, b| a + b);
    mix.mix_in(&[0, 0, 40], |a, b| a + b);
    assert_eq!(mix.samples(), [0, 7, 90]);
    mix.finish(2, |x, gain| x * gain, |x| if x > 100 { 100 } else { x });
    assert_eq!(mix.samples(), [0, 14, 100]);
    mix.clear();
    assert_eq!(mix.samples(), [0, 0, 0]);
    assert!(MixBuffer::new(0, 0).samples().is_empty());
}
