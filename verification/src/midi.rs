//! MIDI events and the instrument that each channel plays.

use vstd::prelude::*;

verus! {

/// A MIDI event with timestamp, the currency of the whole pipeline.
#[derive(Debug, Clone, Copy, PartialEq, Eq, Structural)]
pub struct MidiEvent {
    /// Timestamp in microseconds since renderer start.
    pub timestamp_us: u64,
    /// MIDI channel (0-15).
    pub channel: u8,
    /// Note number (0-127, 60 = middle C).
    pub note: u8,
    /// Velocity (0-127, 0 = note off).
    pub velocity: u8,
}

impl MidiEvent {
    /// Is this a note-on event?
    pub fn is_note_on(&self) -> (on: bool)
        ensures
            on == (self.velocity > 0),
    {
        self.velocity > 0
    }

    /// Is this a note-off event?
    pub fn is_note_off(&self) -> (off: bool)
        ensures
            off == (self.velocity == 0),
    {
        self.velocity == 0
    }

    /// A note-on event. A velocity of zero makes it a note-off.
    pub fn note_on(channel: u8, note: u8, velocity: u8, timestamp_us: u64) -> (event: MidiEvent)
        ensures
            event == (MidiEvent { timestamp_us, channel, note, velocity }),
    {
        MidiEvent { timestamp_us, channel, note, velocity }
    }

    /// A note-off event.
    pub fn note_off(channel: u8, note: u8, timestamp_us: u64) -> (event: MidiEvent)
        ensures
            event == (MidiEvent { timestamp_us, channel, note, velocity: 0 }),
    {
        MidiEvent { timestamp_us, channel, note, velocity: 0 }
    }
}

/// The synthesis engines that a channel can select.
#[derive(Debug, Clone, Copy, PartialEq, Eq, Structural)]
pub enum VoiceType {
    Piano,
    Bass,
    Strings,
    Guitar,
    Drums,
}

/// The instrument of channel `ch`: the General MIDI assignment, and a piano on every
/// channel that has none.
pub open spec fn voice_of_channel(ch: u8) -> VoiceType {
    if ch == 1 {
        VoiceType::Bass
    } else if ch == 2 {
        VoiceType::Strings
    } else if ch == 3 {
        VoiceType::Guitar
    } else if ch == 9 {
        VoiceType::Drums
    } else {
        VoiceType::Piano
    }
}

impl VoiceType {
    /// Map a MIDI channel to a voice type.
    pub fn from_channel(ch: u8) -> (voice: VoiceType)
        ensures
            voice == voice_of_channel(ch),
    {
        match ch {
            0 => VoiceType::Piano,
            1 => VoiceType::Bass,
            2 => VoiceType::Strings,
            3 => VoiceType::Guitar,
            9 => VoiceType::Drums,
            _ => VoiceType::Piano,
        }
    }
}

/// Each instrument but the piano has one channel, and the piano has all others.
pub proof fn law_instruments_have_their_channels(ch: u8)
    ensures
        voice_of_channel(ch) is Bass <==> ch == 1,
        voice_of_channel(ch) is Strings <==> ch == 2,
        voice_of_channel(ch) is Guitar <==> ch == 3,
        voice_of_channel(ch) is Drums <==> ch == 9,
        voice_of_channel(ch) is Piano <==> ch != 1 && ch != 2 && ch != 3 && ch != 9,
{
}

} // verus!
