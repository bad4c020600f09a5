use fleet_audio::midi::{MidiEvent, VoiceType};

#[test]
fn note_on_off_detection() {
    let on = MidiEvent::note_on(0, 60, 100, 0);
    assert!(on.is_note_on());
    assert!(!on.is_note_off());

    let off = MidiEvent::note_off(0, 60, 0);
    assert!(off.is_note_off());
    assert!(!off.is_note_on());
}

#[test]
fn voice_type_mapping() {
    assert_eq!(VoiceType::from_channel(0), VoiceType::Piano);
    assert_eq!(VoiceType::from_channel(1), VoiceType::Bass);
    assert_eq!(VoiceType::from_channel(2), VoiceType::Strings);
    assert_eq!(VoiceType::from_channel(3), VoiceType::Guitar);
    assert_eq!(VoiceType::from_channel(9), VoiceType::Drums);
    // Default fallback
    assert_eq!(VoiceType::from_channel(15), VoiceType::Piano);
}

#[test]
fn constructors_keep_their_fields() {
    let on = MidiEvent::note_on(3, 52, 90, 1234);
    assert_eq!(on, MidiEvent { timestamp_us: 1234, channel: 3, note: 52, velocity: 90 });
    let off = MidiEvent::note_off(9, 36, 77);
    assert_eq!(off, MidiEvent { timestamp_us: 77, channel: 9, note: 36, velocity: 0 });
    assert!(MidiEvent::note_on(0, 1, 0, 0).is_note_off());
}

#[test]
fn unassigned_channels_play_piano() {
    for ch in 0..=255u8 {
        let expected = match ch {
            1 => VoiceType::Bass,
            2 => VoiceType::Strings,
            3 => VoiceType::Guitar,
            9 => VoiceType::Drums,
            _ => VoiceType::Piano,
        };
        assert_eq!(VoiceType::from_channel(ch), expected);
    }
}
