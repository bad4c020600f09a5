//! The streaming synthesizer: which voice plays which note in which slot.
//!
//! Per chunk it drains the pending MIDI events, assigns notes to a fixed pool of voice
//! slots, returns the slots of finished voices to the pool, and tells the sound engine what
//! to start, release and render. The pool never grows, so memory does not depend on the
//! duration of the piece, and nothing is allocated per chunk as long as the command buffer
//! has room for one command per event and slot.

use vstd::prelude::*;

use crate::config::Config;
use crate::feel::{DialsReadings, EarArithmetic, FeelPulse, Gauge, Heard, Push, RenderState, ShapeArithmetic};
use crate::midi::{MidiEvent, VoiceType};
use crate::ring::EventRing;

verus! {

/// The most events that one chunk takes from the ring.
pub const EVENTS_PER_CHUNK: usize = 64;

/// An upper bound on the bytes of one voice slot.
pub const VOICE_SLOT_BYTES: usize = 24;

/// Microseconds between two status reports.
pub const STATUS_INTERVAL_US: u64 = 10_000_000;

/// A voice slot. Voices are reused from a pool.
#[derive(Debug, Clone, Copy, PartialEq, Eq, Structural)]
pub enum VoiceSlot {
    /// The slot is available for a new note.
    Idle,
    /// The slot belongs to a voice.
    Active {
        /// The engine that plays it.
        voice: VoiceType,
        /// The channel that the note came from.
        channel: u8,
        /// The note that it plays.
        note: u8,
        /// Does it still produce sound?
        sounding: bool,
    },
}

/// What the sound engine has to do.
#[derive(Debug, Clone, Copy, PartialEq, Eq, Structural)]
pub enum VoiceCommand {
    /// Put a new voice into the slot and start the note.
    Start { slot: usize, voice: VoiceType, note: u8, velocity: u8 },
    /// Begin the release of the voice in the slot.
    Release { slot: usize },
    /// Mix the voice in the slot into the chunk.
    Render { slot: usize },
}

/// Is there a voice in the slot that produces sound?
pub open spec fn is_sounding(slot: VoiceSlot) -> bool {
    slot matches VoiceSlot::Active { sounding, .. } && sounding
}

/// Does the slot hold a voice that plays `note` for `channel`? One that has rung out plays no
/// note.
pub open spec fn plays(slot: VoiceSlot, channel: u8, note: u8) -> bool {
    slot matches VoiceSlot::Active { channel: c, note: n, sounding, .. } && c == channel && n
        == note && sounding
}

/// The first idle slot, from slot `from` on.
pub open spec fn first_idle(slots: Seq<VoiceSlot>, from: int) -> Option<int>
    decreases slots.len() - from,
{
    if from >= slots.len() {
        None
    } else if slots[from] is Idle {
        Some(from)
    } else {
        first_idle(slots, from + 1)
    }
}

/// The first slot, from slot `from` on, whose voice plays `note` for `channel`.
pub open spec fn first_playing(slots: Seq<VoiceSlot>, channel: u8, note: u8, from: int) -> Option<int>
    decreases slots.len() - from,
{
    if from >= slots.len() {
        None
    } else if plays(slots[from], channel, note) {
        Some(from)
    } else {
        first_playing(slots, channel, note, from + 1)
    }
}

/// `first_idle` is the first idle slot: every slot before it belongs to a voice, and there
/// is none if and only if every slot does.
proof fn lemma_first_idle(slots: Seq<VoiceSlot>, from: int)
    requires
        0 <= from,
    ensures
        match first_idle(slots, from) {
            Some(i) => {
                &&& from <= i < slots.len()
                &&& slots[i] is Idle
                &&& forall|j: int| from <= j < i ==> !(#[trigger] slots[j] is Idle)
            },
            None => forall|j: int| from <= j < slots.len() ==> !(#[trigger] slots[j] is Idle),
        },
    decreases slots.len() - from,
{
    if from < slots.len() && !(slots[from] is Idle) {
        lemma_first_idle(slots, from + 1);
    }
}

/// `first_playing` is the first slot that plays the note for the channel.
proof fn lemma_first_playing(slots: Seq<VoiceSlot>, channel: u8, note: u8, from: int)
    requires
        0 <= from,
    ensures
        match first_playing(slots, channel, note, from) {
            Some(i) => {
                &&& from <= i < slots.len()
                &&& plays(slots[i], channel, note)
                &&& forall|j: int| from <= j < i ==> !plays(#[trigger] slots[j], channel, note)
            },
            None => forall|j: int|
                from <= j < slots.len() ==> !plays(#[trigger] slots[j], channel, note),
        },
    decreases slots.len() - from,
{
    if from < slots.len() && !plays(slots[from], channel, note) {
        lemma_first_playing(slots, channel, note, from + 1);
    }
}

/// The slot that a new note gets: the first idle one, or else the stolen slot 0.
pub open spec fn slot_for_note(slots: Seq<VoiceSlot>) -> int {
    match first_idle(slots, 0) {
        Some(i) => i,
        None => 0,
    }
}

/// The slots after `event`. Only a note-on changes them: a released voice keeps its slot
/// until it has rung out.
pub open spec fn after_event(slots: Seq<VoiceSlot>, event: MidiEvent) -> Seq<VoiceSlot> {
    if event.velocity > 0 {
        slots.update(
            slot_for_note(slots),
            VoiceSlot::Active {
                voice: crate::midi::voice_of_channel(event.channel),
                channel: event.channel,
                note: event.note,
                sounding: true,
            },
        )
    } else {
        slots
    }
}

/// What the sound engine has to do for `event`.
pub open spec fn command_of(slots: Seq<VoiceSlot>, event: MidiEvent) -> Option<VoiceCommand> {
    if event.velocity > 0 {
        Some(
            VoiceCommand::Start {
                slot: slot_for_note(slots) as usize,
                voice: crate::midi::voice_of_channel(event.channel),
                note: event.note,
                velocity: event.velocity,
            },
        )
    } else {
        match first_playing(slots, event.channel, event.note, 0) {
            Some(i) => Some(VoiceCommand::Release { slot: i as usize }),
            None => None,
        }
    }
}

/// The slots after all of `events`, in order.
pub open spec fn after_events(slots: Seq<VoiceSlot>, events: Seq<MidiEvent>) -> Seq<VoiceSlot>
    decreases events.len(),
{
    if events.len() == 0 {
        slots
    } else {
        after_event(after_events(slots, events.drop_last()), events.last())
    }
}

/// What the sound engine has to do for `events`, in order.
pub open spec fn commands_of(slots: Seq<VoiceSlot>, events: Seq<MidiEvent>) -> Seq<VoiceCommand>
    decreases events.len(),
{
    if events.len() == 0 {
        Seq::empty()
    } else {
        let init = events.drop_last();
        match command_of(after_events(slots, init), events.last()) {
            Some(command) => commands_of(slots, init).push(command),
            None => commands_of(slots, init),
        }
    }
}

/// The events that one chunk takes from the ring: the oldest ones.
pub open spec fn taken_events(queue: Seq<MidiEvent>) -> Seq<MidiEvent> {
    if queue.len() <= EVENTS_PER_CHUNK {
        queue
    } else {
        queue.take(EVENTS_PER_CHUNK as int)
    }
}

/// A slot after the sweep over the pool: a voice that has rung out gives its slot back.
pub open spec fn swept_slot(slot: VoiceSlot) -> VoiceSlot {
    if is_sounding(slot) {
        slot
    } else {
        VoiceSlot::Idle
    }
}

/// The pool after the sweep.
pub open spec fn swept(slots: Seq<VoiceSlot>) -> Seq<VoiceSlot> {
    slots.map_values(|slot: VoiceSlot| swept_slot(slot))
}

/// The sounding slots, in order: what the sound engine has to render.
pub open spec fn renders(slots: Seq<VoiceSlot>) -> Seq<VoiceCommand>
    decreases slots.len(),
{
    if slots.len() == 0 {
        Seq::empty()
    } else if is_sounding(slots.last()) {
        renders(slots.drop_last()).push(VoiceCommand::Render { slot: (slots.len() - 1) as usize })
    } else {
        renders(slots.drop_last())
    }
}

/// The number of voices that produce sound.
pub open spec fn sounding_count(slots: Seq<VoiceSlot>) -> nat {
    slots.filter(|slot: VoiceSlot| is_sounding(slot)).len()
}

/// A slot after the sound engine reports that its voice has rung out.
pub open spec fn finished_slot(slot: VoiceSlot) -> VoiceSlot {
    match slot {
        VoiceSlot::Idle => VoiceSlot::Idle,
        VoiceSlot::Active { voice, channel, note, .. } => VoiceSlot::Active {
            voice,
            channel,
            note,
            sounding: false,
        },
    }
}

/// The state of a synthesizer, as a mathematical value.
#[verifier::ext_equal]
pub struct SynthState<E> {
    /// The voice pool.
    pub slots: Seq<VoiceSlot>,
    pub sample_rate: u32,
    pub chunk_size: usize,
    pub master_gain: E,
    pub time_us: int,
    /// The ear, if enabled.
    pub feel: Option<FeelPulse<E>>,
}

/// The ear, if enabled, has room for another frame.
pub open spec fn ear_has_room<E>(s: SynthState<E>) -> bool {
    s.feel matches Some(ear) ==> crate::feel::has_room(ear@)
}

/// From `s` to `t` the ear hears one frame, of which it makes `heard`; without an ear nothing
/// is heard and nothing changes.
pub open spec fn listens<E>(
    s: SynthState<E>,
    t: SynthState<E>,
    ops: crate::feel::EarRelation<E>,
    heard: Option<Heard<E>>,
) -> bool {
    match s.feel {
        Some(ear) => {
            &&& heard matches Some(h)
            &&& crate::feel::hears(ear@, ops, h)
            &&& t.feel matches Some(listening)
            &&& listening@ == crate::feel::after(ear@, h)
            &&& t == (SynthState { feel: Some(listening), ..s })
        },
        None => heard is None && t == s,
    }
}

/// `gain` is the gain of a chunk: the master gain, as the ear shapes it if there is one.
pub open spec fn is_chunk_gain<E>(
    s: SynthState<E>,
    shape: crate::feel::ShapeRelation<E>,
    full: E,
    gain: E,
) -> bool {
    match s.feel {
        Some(ear) => exists|shaped: RenderState<E>|
            #[trigger] crate::feel::is_shaped(
                ear@,
                shape,
                RenderState { gain: s.master_gain, velocity: full },
                shaped,
            ) && gain == shaped.gain,
        None => gain == s.master_gain,
    }
}

/// What the sound engine has to do for a chunk while `queue` is queued.
pub open spec fn chunk_commands(slots: Seq<VoiceSlot>, queue: Seq<MidiEvent>) -> Seq<VoiceCommand> {
    commands_of(slots, taken_events(queue)) + renders(after_events(slots, taken_events(queue)))
}

/// The streaming synthesizer.
pub struct Synthesizer<E> {
    voices: Vec<VoiceSlot>,
    sample_rate: u32,
    chunk_size: usize,
    master_gain: E,
    current_time_us: u64,
    feel: Option<FeelPulse<E>>,
}

impl<E> View for Synthesizer<E> {
    type V = SynthState<E>;

    closed spec fn view(&self) -> SynthState<E> {
        SynthState {
            slots: self.voices@,
            sample_rate: self.sample_rate,
            chunk_size: self.chunk_size,
            master_gain: self.master_gain,
            time_us: self.current_time_us as int,
            feel: self.feel,
        }
    }
}

impl<E: Copy> Synthesizer<E> {
    /// A new synthesizer with the given configuration: every slot idle, time zero, no ear.
    ///
    /// The slots have to fit into one allocation.
    pub fn new(config: &Config<E>) -> (synth: Synthesizer<E>)
        requires
            config.max_voices * VOICE_SLOT_BYTES <= isize::MAX,
        ensures
            synth@ == (SynthState {
                slots: Seq::new(config.max_voices as nat, |i: int| VoiceSlot::Idle),
                sample_rate: config.sample_rate,
                chunk_size: config.chunk_size,
                master_gain: config.master_gain,
                time_us: 0,
                feel: None,
            }),
    {
        let max_voices: usize = config.max_voices;
        let mut voices: Vec<VoiceSlot> = Vec::with_capacity(max_voices);
        for i in 0..max_voices
            invariant
                voices@ =~= Seq::new(i as nat, |j: int| VoiceSlot::Idle),
        {
            voices.push(VoiceSlot::Idle);
        }
        Synthesizer {
            voices,
            sample_rate: config.sample_rate,
            chunk_size: config.chunk_size,
            master_gain: config.master_gain,
            current_time_us: 0,
            feel: None,
        }
    }

    /// A new synthesizer with the default configuration and the given master gain.
    pub fn with_defaults(master_gain: E) -> (synth: Synthesizer<E>)
        ensures
            synth@ == (SynthState {
                slots: Seq::new(64, |i: int| VoiceSlot::Idle),
                sample_rate: 44_100,
                chunk_size: 1024,
                master_gain,
                time_us: 0,
                feel: None,
            }),
    {
        Synthesizer::new(&Config::with_gain(master_gain))
    }

    /// Find an idle voice slot.
    fn find_free_slot(&self) -> (slot: Option<usize>)
        ensures
            match slot {
                Some(i) => i < self@.slots.len() && first_idle(self@.slots, 0) == Some(i as int),
                None => first_idle(self@.slots, 0) is None,
            },
    {
        for i in 0..self.voices.len()
            invariant
                first_idle(self@.slots, 0) == first_idle(self@.slots, i as int),
                i <= self@.slots.len(),
        {
            if let VoiceSlot::Idle = self.voices[i] {
                return Some(i);
            }
        }
        None
    }

    /// The slot to steal when all are busy: the first one.
    fn find_voice_to_steal(&self) -> (slot: usize)
        ensures
            slot == 0,
    {
        0
    }

    /// Handle a note-on: give the note a free slot, or steal one.
    fn handle_note_on(&mut self, channel: u8, note: u8, velocity: u8) -> (command: VoiceCommand)
        requires
            old(self)@.slots.len() > 0,
            velocity > 0,
        ensures
            ({
                let event = MidiEvent { timestamp_us: 0, channel, note, velocity };
                &&& final(self)@ == (SynthState {
                    slots: after_event(old(self)@.slots, event),
                    ..old(self)@
                })
                &&& command_of(old(self)@.slots, event) == Some(command)
            }),
    {
        let voice = VoiceType::from_channel(channel);
        let slot: usize = match self.find_free_slot() {
            Some(i) => i,
            None => self.find_voice_to_steal(),
        };
        self.voices[slot] = VoiceSlot::Active { voice, channel, note, sounding: true };
        VoiceCommand::Start { slot, voice, note, velocity }
    }

    /// Handle a note-off: find the first voice that plays the note for the channel.
    fn handle_note_off(&self, channel: u8, note: u8) -> (command: Option<VoiceCommand>)
        ensures
            command == (match first_playing(self@.slots, channel, note, 0) {
                Some(i) => Some(VoiceCommand::Release { slot: i as usize }),
                None => None,
            }),
    {
        for i in 0..self.voices.len()
            invariant
                first_playing(self@.slots, channel, note, 0) == first_playing(
                    self@.slots,
                    channel,
                    note,
                    i as int,
                ),
                i <= self@.slots.len(),
        {
            if let VoiceSlot::Active { channel: c, note: n, sounding, .. } = self.voices[i] {
                if c == channel && n == note && sounding {
                    return Some(VoiceCommand::Release { slot: i });
                }
            }
        }
        None
    }

    /// Apply one event to the pool. Returns what the sound engine has to do for it, if
    /// anything.
    pub fn handle_event(&mut self, event: MidiEvent) -> (command: Option<VoiceCommand>)
        requires
            event.velocity > 0 ==> old(self)@.slots.len() > 0,
        ensures
            final(self)@ == (SynthState { slots: after_event(old(self)@.slots, event), ..old(self)@ }),
            command == command_of(old(self)@.slots, event),
            final(self)@.slots.len() == old(self)@.slots.len(),
    {
        proof {
            lemma_first_idle(self@.slots, 0);
        }
        if event.is_note_on() {
            Some(self.handle_note_on(event.channel, event.note, event.velocity))
        } else if event.is_note_off() {
            self.handle_note_off(event.channel, event.note)
        } else {
            None
        }
    }

    /// Return the slots of finished voices to the pool, and add a command for each voice
    /// that is to be rendered.
    fn sweep(&mut self, commands: &mut Vec<VoiceCommand>)
        ensures
            final(self)@ == (SynthState { slots: swept(old(self)@.slots), ..old(self)@ }),
            final(commands)@ == old(commands)@ + renders(old(self)@.slots),
    {
        let ghost slots = self@.slots;
        let ghost issued = commands@;
        let total: usize = self.voices.len();
        assert(slots.take(0) =~= Seq::empty());
        assert(issued + renders(slots.take(0)) =~= issued);
        for i in 0..total
            invariant
                total == slots.len(),
                self.voices@.len() == total,
                self@ == (SynthState { slots: self.voices@, ..old(self)@ }),
                forall|j: int| 0 <= j < i ==> self.voices@[j] == swept_slot(#[trigger] slots[j]),
                forall|j: int| i <= j < total ==> self.voices@[j] == #[trigger] slots[j],
                commands@ == issued + renders(slots.take(i as int)),
        {
            assert(slots.take(i + 1).drop_last() =~= slots.take(i as int));
            assert(slots.take(i + 1).last() == slots[i as int]);
            if let VoiceSlot::Active { sounding, .. } = self.voices[i] {
                if sounding {
                    commands.push(VoiceCommand::Render { slot: i });
                    assert(commands@ =~= issued + renders(slots.take(i + 1)));
                } else {
                    self.voices[i] = VoiceSlot::Idle;
                }
            }
        }
        assert(slots.take(total as int) =~= slots);
        assert(self.voices@ =~= swept(slots));
    }

    /// Process one chunk: drain the pending events, at most [`EVENTS_PER_CHUNK`] of them,
    /// apply them to the pool in order, sweep the pool, and advance the time by `chunk_us`.
    ///
    /// `commands` is overwritten with what the sound engine has to do, in order. It renders
    /// the chunk by following them, and reports each voice that rang out with
    /// [`Synthesizer::voice_finished`].
    pub fn process_chunk(
        &mut self,
        ring: &mut EventRing,
        chunk_us: u64,
        commands: &mut Vec<VoiceCommand>,
    )
        requires
            playable(old(self)@.slots, taken_events(old(ring)@)),
            old(self)@.time_us + chunk_us <= u64::MAX,
        ensures
            ({
                let taken = taken_events(old(ring)@);
                let pool = after_events(old(self)@.slots, taken);
                &&& final(ring)@ == old(ring)@.skip(taken.len() as int)
                &&& final(ring).spec_capacity() == old(ring).spec_capacity()
                &&& final(self)@ == (SynthState {
                    slots: swept(pool),
                    time_us: old(self)@.time_us + chunk_us,
                    ..old(self)@
                })
                &&& final(commands)@ == chunk_commands(old(self)@.slots, old(ring)@)
            }),
            final(self)@.slots.len() == old(self)@.slots.len(),
    {
        let mut event_buf: [MidiEvent; 64] = [MidiEvent {
            timestamp_us: 0,
            channel: 0,
            note: 0,
            velocity: 0,
        }; 64];
        let n_events: usize = ring.drain_into(&mut event_buf);
        commands.clear();
        let ghost taken = taken_events(old(ring)@);
        let ghost slots = self@.slots;
        assert(taken.take(0) =~= Seq::empty());
        for i in 0..n_events
            invariant
                n_events == taken.len(),
                n_events <= 64,
                event_buf@.take(n_events as int) == taken,
                playable(slots, taken),
                self@ == (SynthState {
                    slots: after_events(slots, taken.take(i as int)),
                    ..old(self)@
                }),
                self@.slots.len() == slots.len(),
                commands@ == commands_of(slots, taken.take(i as int)),
        {
            let event = event_buf[i];
            proof {
                assert(event == event_buf@.take(n_events as int)[i as int]);
                assert(taken.take(i + 1).drop_last() =~= taken.take(i as int));
                assert(taken.take(i + 1).last() == taken[i as int]);
            }
            if let Some(command) = self.handle_event(event) {
                commands.push(command);
            }
        }
        assert(taken.take(n_events as int) =~= taken);
        self.sweep(commands);
        self.current_time_us = self.current_time_us + chunk_us;
    }

    /// Note that the voice in `slot` has rung out. Its slot returns to the pool with the
    /// next chunk.
    pub fn voice_finished(&mut self, slot: usize)
        requires
            slot < old(self)@.slots.len(),
        ensures
            final(self)@ == (SynthState {
                slots: old(self)@.slots.update(
                    slot as int,
                    finished_slot(old(self)@.slots[slot as int]),
                ),
                ..old(self)@
            }),
    {
        let ghost slots = self@.slots;
        if let VoiceSlot::Active { voice, channel, note, .. } = self.voices[slot] {
            self.voices[slot] = VoiceSlot::Active { voice, channel, note, sounding: false };
        }
        assert(self@.slots =~= slots.update(slot as int, finished_slot(slots[slot as int])));
    }

    /// Enable the ear: the renderer starts listening to its own output.
    pub fn enable_feel(&mut self, feel: FeelPulse<E>)
        ensures
            final(self)@ == (SynthState { feel: Some(feel), ..old(self)@ }),
    {
        self.feel = Some(feel);
    }

    /// Mutable access to the ear, if enabled.
    pub fn feel_mut(&mut self) -> (feel: Option<&mut FeelPulse<E>>)
        ensures
            match feel {
                Some(ear) => old(self)@.feel == Some(*ear) && final(self)@ == (SynthState {
                    feel: Some(*final(ear)),
                    ..old(self)@
                }),
                None => old(self)@.feel is None && final(self)@ == old(self)@,
            },
    {
        self.feel.as_mut()
    }

    /// Feed an external energy frame into the ear. Does nothing when the ear is disabled.
    pub fn feed_energy<
        Fin: Fn(E) -> bool,
        Add: Fn(E, E) -> E,
        Sub: Fn(E, E) -> E,
        Sec: Fn(E, E, E) -> E,
        Mea: Fn(E, usize) -> E,
        Out: Fn(E, E) -> bool,
        Smo: Fn(E, u64) -> E,
        Gau: Fn(E, E) -> Gauge,
    >(&mut self, energy: E, ops: &EarArithmetic<Fin, Add, Sub, Sec, Mea, Out, Smo, Gau>) -> (heard: Option<
        Heard<E>,
    >)
        requires
            ear_has_room(old(self)@),
            crate::feel::ear_total::<E, Fin, Add, Sub, Sec, Mea, Out, Smo, Gau>(*ops),
        ensures
            listens(old(self)@, final(self)@, crate::feel::ear_relation(*ops), heard),
            heard matches Some(h) ==> h.frame == energy,
    {
        match self.feel.as_mut() {
            Some(ear) => Some(ear.push(energy, ops)),
            None => None,
        }
    }

    /// Feed a reading of the room's dials into the ear. `tilt` turns loudness and warmth into an
    /// energy. Does nothing when the ear is disabled.
    pub fn feed_dials<
        Til: Fn(E, E) -> E,
        Fin: Fn(E) -> bool,
        Add: Fn(E, E) -> E,
        Sub: Fn(E, E) -> E,
        Sec: Fn(E, E, E) -> E,
        Mea: Fn(E, usize) -> E,
        Out: Fn(E, E) -> bool,
        Smo: Fn(E, u64) -> E,
        Gau: Fn(E, E) -> Gauge,
    >(
        &mut self,
        readings: DialsReadings<E>,
        tilt: Til,
        ops: &EarArithmetic<Fin, Add, Sub, Sec, Mea, Out, Smo, Gau>,
    ) -> (heard: Option<Heard<E>>)
        requires
            ear_has_room(old(self)@),
            call_requires(tilt, (readings.volume, readings.mood)),
            crate::feel::ear_total::<E, Fin, Add, Sub, Sec, Mea, Out, Smo, Gau>(*ops),
        ensures
            listens(old(self)@, final(self)@, crate::feel::ear_relation(*ops), heard),
            heard matches Some(h) ==> call_ensures(
                tilt,
                (readings.volume, readings.mood),
                h.frame,
            ),
    {
        match self.feel.as_mut() {
            Some(ear) => Some(ear.push_dials(readings, tilt, ops)),
            None => None,
        }
    }

    /// The gain of the chunk that was mixed last. With an ear, the renderer listens to the
    /// energy of the chunk, which `measure` gives, and shapes the master gain by what it feels;
    /// without one, it is the master gain. `full` is the full velocity.
    pub fn chunk_gain<
        Msr: Fn() -> E,
        Fin: Fn(E) -> bool,
        Add: Fn(E, E) -> E,
        Sub: Fn(E, E) -> E,
        Sec: Fn(E, E, E) -> E,
        Mea: Fn(E, usize) -> E,
        Out: Fn(E, E) -> bool,
        Smo: Fn(E, u64) -> E,
        Gau: Fn(E, E) -> Gauge,
        Com: Fn(E, E) -> Push<E>,
        Ste: Fn(E) -> Push<E>,
        Mul: Fn(E) -> E,
        Sca: Fn(E, E) -> E,
    >(
        &mut self,
        measure: Msr,
        full: E,
        ops: &EarArithmetic<Fin, Add, Sub, Sec, Mea, Out, Smo, Gau>,
        shape: &ShapeArithmetic<Com, Ste, Mul, Sca>,
    ) -> (gain: E)
        requires
            ear_has_room(old(self)@),
            call_requires(measure, ()),
            crate::feel::ear_total::<E, Fin, Add, Sub, Sec, Mea, Out, Smo, Gau>(*ops),
            crate::feel::shape_total::<E, Com, Ste, Mul, Sca>(*shape),
        ensures
            exists|heard: Option<Heard<E>>|
                #[trigger] listens(
                    old(self)@,
                    final(self)@,
                    crate::feel::ear_relation(*ops),
                    heard,
                ) && (heard matches Some(h) ==> call_ensures(measure, (), h.frame)),
            is_chunk_gain(final(self)@, crate::feel::shape_relation(*shape), full, gain),
    {
        let ghost before = self@;
        let master_gain = self.master_gain;
        match self.feel.as_mut() {
            Some(ear) => {
                let heard = ear.push(measure(), ops);
                let state = RenderState::new(master_gain, full);
                let shaped = ear.shape_output(state, shape);
                let ghost listening = *ear;
                assert(crate::feel::is_shaped(
                    listening@,
                    crate::feel::shape_relation(*shape),
                    state,
                    shaped,
                ));
                assert(listens(before, self@, crate::feel::ear_relation(*ops), Some(heard)));
                shaped.gain
            },
            None => {
                assert(listens(before, self@, crate::feel::ear_relation(*ops), None));
                master_gain
            },
        }
    }

    /// The number of voices that produce sound.
    pub fn active_voice_count(&self) -> (count: usize)
        ensures
            count == sounding_count(self@.slots),
    {
        let ghost slots = self@.slots;
        let mut count: usize = 0;
        assert(slots.take(0) =~= Seq::empty());
        for i in 0..self.voices.len()
            invariant
                slots == self@.slots,
                count <= i <= slots.len(),
                count == sounding_count(slots.take(i as int)),
        {
            assert(slots.take(i + 1).drop_last() =~= slots.take(i as int));
            assert(slots.take(i + 1).last() == slots[i as int]);
            proof {
                reveal(Seq::filter);
            }
            if let VoiceSlot::Active { sounding, .. } = self.voices[i] {
                if sounding {
                    count = count + 1;
                }
            }
        }
        assert(slots.take(slots.len() as int) =~= slots);
        count
    }

    /// The voice slot number `slot`.
    pub fn voice_slot(&self, slot: usize) -> (voice: VoiceSlot)
        requires
            slot < self@.slots.len(),
        ensures
            voice == self@.slots[slot as int],
    {
        self.voices[slot]
    }

    /// The size of the voice pool.
    pub fn max_voices(&self) -> (n: usize)
        ensures
            n == self@.slots.len(),
    {
        self.voices.len()
    }

    /// Current time in microseconds.
    pub fn current_time_us(&self) -> (t: u64)
        ensures
            t == self@.time_us,
    {
        self.current_time_us
    }

    /// Is a status report due? One is at every full multiple of the interval but zero.
    pub fn status_due(&self) -> (due: bool)
        ensures
            due == (self@.time_us % 10_000_000 == 0 && self@.time_us > 0),
    {
        self.current_time_us % STATUS_INTERVAL_US == 0 && self.current_time_us > 0
    }

    /// Sample rate in Hz.
    pub fn sample_rate(&self) -> (rate: u32)
        ensures
            rate == self@.sample_rate,
    {
        self.sample_rate
    }

    /// Chunk size in frames.
    pub fn chunk_size(&self) -> (size: usize)
        ensures
            size == self@.chunk_size,
    {
        self.chunk_size
    }

    /// Master gain.
    pub fn master_gain(&self) -> (gain: E)
        ensures
            gain == self@.master_gain,
    {
        self.master_gain
    }
}

/// The pool can take the events: it has a slot, or there is no note-on among them.
pub open spec fn playable(slots: Seq<VoiceSlot>, events: Seq<MidiEvent>) -> bool {
    slots.len() > 0 || forall|i: int| 0 <= i < events.len() ==> (#[trigger] events[i]).velocity == 0
}

/// No event changes the size of the pool, and neither does the sweep.
proof fn lemma_pool_keeps_size(slots: Seq<VoiceSlot>, events: Seq<MidiEvent>)
    requires
        playable(slots, events),
    ensures
        after_events(slots, events).len() == slots.len(),
        swept(after_events(slots, events)).len() == slots.len(),
    decreases events.len(),
{
    if events.len() > 0 {
        let init = events.drop_last();
        assert forall|i: int| slots.len() == 0 && 0 <= i < init.len() implies (
        #[trigger] init[i]).velocity == 0 by {
            assert(init[i] == events[i]);
        }
        lemma_pool_keeps_size(slots, init);
        lemma_first_idle(after_events(slots, init), 0);
        assert(slots.len() == 0 ==> events[events.len() - 1].velocity == 0);
    }
}

/// One chunk as the pool sees it: the events that it takes, and then the slots whose voices
/// rang out in it.
pub struct ChunkStory {
    pub events: Seq<MidiEvent>,
    pub finished: Set<int>,
}

/// The pool after a chunk was processed and the voices that rang out in it were reported.
pub open spec fn after_chunk(slots: Seq<VoiceSlot>, chunk: ChunkStory) -> Seq<VoiceSlot> {
    swept(after_events(slots, chunk.events)).map(
        |i: int, slot: VoiceSlot|
            if chunk.finished.contains(i) {
                finished_slot(slot)
            } else {
                slot
            },
    )
}

/// The pool after a number of chunks.
pub open spec fn after_chunks(slots: Seq<VoiceSlot>, chunks: Seq<ChunkStory>) -> Seq<VoiceSlot>
    decreases chunks.len(),
{
    if chunks.len() == 0 {
        slots
    } else {
        after_chunk(after_chunks(slots, chunks.drop_last()), chunks.last())
    }
}

/// No more voices sound than there are slots.
proof fn lemma_count_is_bounded(slots: Seq<VoiceSlot>)
    ensures
        sounding_count(slots) <= slots.len(),
    decreases slots.len(),
{
    reveal(Seq::filter);
    if slots.len() > 0 {
        lemma_count_is_bounded(slots.drop_last());
    }
}

/// Memory does not depend on the duration: after any number of chunks, whatever was played,
/// the pool has the size that it started with, and no more voices sound than that.
pub proof fn law_pool_never_grows(slots: Seq<VoiceSlot>, chunks: Seq<ChunkStory>)
    requires
        forall|i: int| 0 <= i < chunks.len() ==> playable(slots, (#[trigger] chunks[i]).events),
    ensures
        after_chunks(slots, chunks).len() == slots.len(),
        sounding_count(after_chunks(slots, chunks)) <= slots.len(),
    decreases chunks.len(),
{
    lemma_count_is_bounded(after_chunks(slots, chunks));
    if chunks.len() > 0 {
        let init = chunks.drop_last();
        assert forall|i: int| 0 <= i < init.len() implies playable(
            slots,
            (#[trigger] init[i]).events,
        ) by {
            assert(init[i] == chunks[i]);
        }
        law_pool_never_grows(slots, init);
        assert(playable(slots, chunks[chunks.len() - 1].events));
        lemma_pool_keeps_size(after_chunks(slots, init), chunks.last().events);
    }
}

/// Once every voice has rung out and no note-on comes, the pool is idle and nothing is
/// rendered any more.
pub proof fn law_rings_out(slots: Seq<VoiceSlot>, rung: ChunkStory, quiet: Seq<MidiEvent>)
    requires
        playable(slots, rung.events),
        forall|i: int| 0 <= i < slots.len() ==> #[trigger] rung.finished.contains(i),
        forall|i: int| 0 <= i < quiet.len() ==> (#[trigger] quiet[i]).velocity == 0,
    ensures
        ({
            let pool = after_events(after_chunk(slots, rung), quiet);
            &&& renders(pool) == Seq::<VoiceCommand>::empty()
            &&& forall|i: int| 0 <= i < slots.len() ==> (#[trigger] swept(pool)[i]) is Idle
        }),
{
    lemma_pool_keeps_size(slots, rung.events);
    let silent = after_chunk(slots, rung);
    lemma_note_offs_keep_pool(silent, quiet);
    assert forall|i: int| 0 <= i < silent.len() implies !is_sounding(#[trigger] silent[i]) by {
        assert(rung.finished.contains(i));
    }
    law_silence_without_voices(silent);
}

/// Note-offs leave every slot as it was.
proof fn lemma_note_offs_keep_pool(slots: Seq<VoiceSlot>, events: Seq<MidiEvent>)
    requires
        forall|i: int| 0 <= i < events.len() ==> (#[trigger] events[i]).velocity == 0,
    ensures
        after_events(slots, events) == slots,
    decreases events.len(),
{
    if events.len() > 0 {
        let init = events.drop_last();
        assert forall|i: int| 0 <= i < init.len() implies (#[trigger] init[i]).velocity == 0 by {
            assert(init[i] == events[i]);
        }
        lemma_note_offs_keep_pool(slots, init);
        assert(events[events.len() - 1].velocity == 0);
    }
}

/// A note-on sounds: its voice, of the instrument of its channel, is in the slot that the
/// sound engine is told to start, and no other slot changes.
pub proof fn law_note_on_sounds(slots: Seq<VoiceSlot>, event: MidiEvent)
    requires
        slots.len() > 0,
        slots.len() <= usize::MAX,
        event.velocity > 0,
    ensures
        ({
            let after = after_event(slots, event);
            &&& command_of(slots, event) matches Some(VoiceCommand::Start {
                slot,
                voice,
                note,
                velocity,
            })
            &&& slot < slots.len()
            &&& voice == crate::midi::voice_of_channel(event.channel)
            &&& note == event.note
            &&& velocity == event.velocity
            &&& is_sounding(after[slot as int])
            &&& plays(after[slot as int], event.channel, event.note)
            &&& forall|i: int| 0 <= i < slots.len() && i != slot ==> #[trigger] after[i] == slots[i]
        }),
{
    lemma_first_idle(slots, 0);
}

/// A voice is stolen only when no slot is idle, and then it is the one in slot 0.
pub proof fn law_steals_only_when_full(slots: Seq<VoiceSlot>, event: MidiEvent)
    requires
        slots.len() > 0,
        event.velocity > 0,
    ensures
        (exists|i: int| 0 <= i < slots.len() && #[trigger] slots[i] is Idle)
            ==> slots[slot_for_note(slots)] is Idle,
        (forall|i: int| 0 <= i < slots.len() ==> !(#[trigger] slots[i] is Idle))
            ==> slot_for_note(slots) == 0,
{
    lemma_first_idle(slots, 0);
}

/// A note-off releases the first sounding voice that plays the note for the channel, if there
/// is one, and leaves every slot as it was: a voice that has rung out does not keep the
/// release from one that sounds.
pub proof fn law_note_off_releases_first(slots: Seq<VoiceSlot>, event: MidiEvent)
    requires
        slots.len() <= usize::MAX,
        event.velocity == 0,
    ensures
        after_event(slots, event) == slots,
        match command_of(slots, event) {
            Some(command) => {
                &&& command matches VoiceCommand::Release { slot }
                &&& slot < slots.len()
                &&& plays(slots[slot as int], event.channel, event.note)
                &&& is_sounding(slots[slot as int])
                &&& forall|i: int|
                    0 <= i < slot ==> !plays(#[trigger] slots[i], event.channel, event.note)
            },
            None => forall|i: int|
                0 <= i < slots.len() ==> !plays(#[trigger] slots[i], event.channel, event.note),
        },
{
    lemma_first_playing(slots, event.channel, event.note, 0);
}

/// Silence without events: a pool in which no voice sounds has nothing to render and is all
/// idle after the sweep.
pub proof fn law_silence_without_voices(slots: Seq<VoiceSlot>)
    requires
        forall|i: int| 0 <= i < slots.len() ==> !is_sounding(#[trigger] slots[i]),
    ensures
        renders(slots) == Seq::<VoiceCommand>::empty(),
        forall|i: int| 0 <= i < slots.len() ==> (#[trigger] swept(slots)[i]) is Idle,
    decreases slots.len(),
{
    if slots.len() > 0 {
        let init = slots.drop_last();
        assert forall|i: int| 0 <= i < init.len() implies !is_sounding(#[trigger] init[i]) by {
            assert(init[i] == slots[i]);
        }
        law_silence_without_voices(init);
        assert(!is_sounding(slots[slots.len() - 1]));
    }
}

/// Exactly the sounding voices are rendered, each once: there are as many render commands
/// as sounding voices, and each names a sounding slot.
pub proof fn law_renders_what_sounds(slots: Seq<VoiceSlot>)
    requires
        slots.len() <= usize::MAX,
    ensures
        renders(slots).len() == sounding_count(slots),
        sounding_count(slots) <= slots.len(),
        forall|k: int|
            0 <= k < renders(slots).len() ==> {
                &&& (#[trigger] renders(slots)[k]) matches VoiceCommand::Render { slot }
                &&& slot < slots.len()
                &&& is_sounding(slots[slot as int])
            },
        forall|k: int, m: int|
            0 <= k < m < renders(slots).len() ==> (#[trigger] renders(slots)[k])->Render_slot < (
            #[trigger] renders(slots)[m])->Render_slot,
        forall|i: int|
            0 <= i < slots.len() && is_sounding(#[trigger] slots[i]) ==> renders(slots).contains(
                VoiceCommand::Render { slot: i as usize },
            ),
    decreases slots.len(),
{
    reveal(Seq::filter);
    if slots.len() > 0 {
        let init = slots.drop_last();
        law_renders_what_sounds(init);
        let last = VoiceCommand::Render { slot: (slots.len() - 1) as usize };
        if is_sounding(slots.last()) {
            assert(renders(slots) == renders(init).push(last));
            assert(renders(slots)[renders(init).len() as int] == last);
        }
        assert forall|i: int|
            0 <= i < slots.len() && is_sounding(#[trigger] slots[i]) implies renders(slots).contains(
            VoiceCommand::Render { slot: i as usize },
        ) by {
            if i < init.len() {
                assert(init[i] == slots[i]);
                let k = choose|k: int|
                    0 <= k < renders(init).len() && renders(init)[k] == (VoiceCommand::Render {
                        slot: i as usize,
                    });
                assert(renders(slots)[k] == renders(init)[k]);
            }
        }
    }
}

/// A voice that has rung out gives its slot back with the next sweep, and what still sounds
/// keeps its slot.
pub proof fn law_finished_voice_frees_its_slot(slots: Seq<VoiceSlot>, slot: int)
    requires
        0 <= slot < slots.len(),
    ensures
        ({
            let after = swept(slots.update(slot, finished_slot(slots[slot])));
            &&& after[slot] is Idle
            &&& forall|i: int|
                0 <= i < slots.len() && i != slot && is_sounding(slots[i]) ==> #[trigger] after[i]
                    == slots[i]
        }),
{
}

/// One turn of the renderer: the events that are queued, the time that the chunk takes, and
/// the slots whose voices ring out in it.
pub struct Turn {
    pub queue: Seq<MidiEvent>,
    pub chunk_us: int,
    pub finished: Set<int>,
}

/// The state after a turn.
pub open spec fn after_turn<E>(s: SynthState<E>, turn: Turn) -> SynthState<E> {
    SynthState {
        slots: after_chunk(
            s.slots,
            ChunkStory { events: taken_events(turn.queue), finished: turn.finished },
        ),
        time_us: s.time_us + turn.chunk_us,
        ..s
    }
}

/// What happens to a renderer: its ear is fed, or it has its turn.
pub enum SynthStep<E> {
    Feed(Option<Heard<E>>),
    Play(Turn),
}

/// The step leads from `s` to `t`.
pub open spec fn leads_to<E>(
    s: SynthState<E>,
    t: SynthState<E>,
    ops: crate::feel::EarRelation<E>,
    step: SynthStep<E>,
) -> bool {
    match step {
        SynthStep::Feed(heard) => listens(s, t, ops, heard),
        SynthStep::Play(turn) => t == after_turn(s, turn),
    }
}

/// The state after the turns among `steps`, as if nothing were fed.
pub open spec fn unfed<E>(s: SynthState<E>, steps: Seq<SynthStep<E>>) -> SynthState<E>
    decreases steps.len(),
{
    if steps.len() == 0 {
        s
    } else {
        match steps.last() {
            SynthStep::Feed(_) => unfed(s, steps.drop_last()),
            SynthStep::Play(turn) => after_turn(unfed(s, steps.drop_last()), turn),
        }
    }
}

/// Without an ear, feeding changes nothing: whatever is fed between the chunks, the state, the
/// commands of the next chunk and its gain are those of a renderer that was never fed, the ear
/// stays disabled, and the gain is the master gain.
pub proof fn law_deaf_renderer<E>(
    states: Seq<SynthState<E>>,
    steps: Seq<SynthStep<E>>,
    ops: crate::feel::EarRelation<E>,
)
    requires
        states.len() == steps.len() + 1,
        states[0].feel is None,
        forall|i: int|
            0 <= i < steps.len() ==> leads_to(states[i], states[i + 1], ops, #[trigger] steps[i]),
    ensures
        states.last() == unfed(states[0], steps),
        states.last().feel is None,
        states.last().master_gain == states[0].master_gain,
        forall|queue: Seq<MidiEvent>| #[trigger]
            chunk_commands(states.last().slots, queue) == chunk_commands(
                unfed(states[0], steps).slots,
                queue,
            ),
        forall|shape: crate::feel::ShapeRelation<E>, full: E, gain: E| #[trigger]
            is_chunk_gain(states.last(), shape, full, gain) <==> gain == states[0].master_gain,
    decreases steps.len(),
{
    if steps.len() > 0 {
        let n = steps.len() - 1;
        let init = states.drop_last();
        let before = steps.drop_last();
        assert forall|i: int| 0 <= i < before.len() implies leads_to(
            init[i],
            init[i + 1],
            ops,
            #[trigger] before[i],
        ) by {
            assert(before[i] == steps[i]);
        }
        law_deaf_renderer(init, before, ops);
        assert(leads_to(states[n], states[n + 1], ops, steps[n]));
        assert(init.last() == states[n]);
    }
}

/// A slot sounds exactly if it holds a voice that is marked so, and plays a note for a channel
/// exactly if it sounds and the voice was started for both.
pub proof fn law_what_a_slot_plays(
    voice: VoiceType,
    channel: u8,
    note: u8,
    sounding: bool,
    asked_channel: u8,
    asked_note: u8,
)
    ensures
        ({
            let slot = VoiceSlot::Active { voice, channel, note, sounding };
            &&& is_sounding(slot) <==> sounding
            &&& plays(slot, asked_channel, asked_note) <==> sounding && channel == asked_channel
                && note == asked_note
        }),
        !is_sounding(VoiceSlot::Idle),
        !plays(VoiceSlot::Idle, asked_channel, asked_note),
{
}

/// A note-on gets the first idle slot, or slot 0 if none is idle: the voice of its channel is
/// started there, and sounds there from then on.
pub proof fn law_note_on_takes_first_idle_slot(slots: Seq<VoiceSlot>, event: MidiEvent, slot: int)
    requires
        0 <= slot < slots.len() <= usize::MAX,
        event.velocity > 0,
        slots[slot] is Idle || slot == 0 && forall|i: int|
            0 <= i < slots.len() ==> !(#[trigger] slots[i] is Idle),
        forall|i: int| 0 <= i < slot ==> !(#[trigger] slots[i] is Idle),
    ensures
        command_of(slots, event) == Some(
            VoiceCommand::Start {
                slot: slot as usize,
                voice: crate::midi::voice_of_channel(event.channel),
                note: event.note,
                velocity: event.velocity,
            },
        ),
        after_event(slots, event) == slots.update(
            slot,
            VoiceSlot::Active {
                voice: crate::midi::voice_of_channel(event.channel),
                channel: event.channel,
                note: event.note,
                sounding: true,
            },
        ),
{
    lemma_first_idle(slots, 0);
}

/// Events are handled one after the other: what is done for two runs of events is what is done
/// for the first and then, in the pool that the first leaves, for the second. A single event is
/// answered by its command, if it has one.
pub proof fn law_events_are_handled_in_turn(
    slots: Seq<VoiceSlot>,
    first: Seq<MidiEvent>,
    second: Seq<MidiEvent>,
)
    ensures
        after_events(slots, first + second) == after_events(after_events(slots, first), second),
        commands_of(slots, first + second) == commands_of(slots, first) + commands_of(
            after_events(slots, first),
            second,
        ),
        first.len() == 0 ==> after_events(slots, first) == slots && commands_of(slots, first).len()
            == 0,
        first.len() == 1 ==> after_events(slots, first) == after_event(slots, first[0]),
        first.len() == 1 ==> commands_of(slots, first) == (match command_of(slots, first[0]) {
            Some(command) => seq![command],
            None => Seq::empty(),
        }),
    decreases second.len(),
{
    if second.len() == 0 {
        assert(first + second =~= first);
    } else {
        let init = second.drop_last();
        law_events_are_handled_in_turn(slots, first, init);
        assert((first + second).drop_last() =~= first + init);
        assert((first + second).last() == second.last());
    }
    if first.len() == 1 {
        assert(first.drop_last() =~= Seq::empty());
        assert(after_events(slots, Seq::empty()) == slots);
        assert(commands_of(slots, Seq::empty()) == Seq::<VoiceCommand>::empty());
    }
}

/// Every event is answered in its turn, whatever came before it. The commands for the events
/// before it stand first. Then a note-on has exactly one start, of its note with its velocity.
/// A note-off has exactly one release, of the first slot that sounds its note for its channel
/// in the pool as the events before left it, and nothing if no slot does.
pub proof fn law_every_event_is_answered(slots: Seq<VoiceSlot>, events: Seq<MidiEvent>, i: int)
    requires
        0 <= i < events.len(),
        slots.len() <= usize::MAX,
        playable(slots, events),
    ensures
        ({
            let pool = after_events(slots, events.take(i));
            let before = commands_of(slots, events.take(i));
            let upto = commands_of(slots, events.take(i + 1));
            let event = events[i];
            let matched = exists|j: int|
                0 <= j < pool.len() && plays(#[trigger] pool[j], event.channel, event.note);
            &&& pool.len() == slots.len()
            &&& upto.take(before.len() as int) == before
            &&& commands_of(slots, events).take(upto.len() as int) == upto
            &&& event.velocity > 0 ==> {
                &&& upto.len() == before.len() + 1
                &&& upto.last() matches VoiceCommand::Start { slot, voice, note, velocity }
                &&& slot < pool.len()
                &&& voice == crate::midi::voice_of_channel(event.channel)
                &&& note == event.note
                &&& velocity == event.velocity
            }
            &&& event.velocity == 0 && !matched ==> upto == before
            &&& event.velocity == 0 && matched ==> {
                &&& upto.len() == before.len() + 1
                &&& upto.last() matches VoiceCommand::Release { slot }
                &&& slot < pool.len()
                &&& plays(pool[slot as int], event.channel, event.note)
                &&& forall|j: int|
                    0 <= j < slot ==> !plays(#[trigger] pool[j], event.channel, event.note)
            }
        }),
{
    let earlier = events.take(i);
    let upto = events.take(i + 1);
    let pool = after_events(slots, earlier);
    assert(upto =~= earlier + seq![events[i]]);
    assert(events =~= upto + events.skip(i + 1));
    law_events_are_handled_in_turn(slots, earlier, seq![events[i]]);
    law_events_are_handled_in_turn(pool, seq![events[i]], Seq::empty());
    law_events_are_handled_in_turn(slots, upto, events.skip(i + 1));
    assert(playable(slots, earlier));
    lemma_pool_keeps_size(slots, earlier);
    if events[i].velocity > 0 {
        law_note_on_sounds(pool, events[i]);
    } else {
        law_note_off_releases_first(pool, events[i]);
    }
    assert(commands_of(slots, upto).take(commands_of(slots, earlier).len() as int)
        =~= commands_of(slots, earlier));
    assert(commands_of(slots, events).take(commands_of(slots, upto).len() as int) =~= commands_of(
        slots,
        upto,
    ));
}

/// The number of starts among `commands`.
pub open spec fn starts_among(commands: Seq<VoiceCommand>) -> nat {
    commands.filter(|command: VoiceCommand| command is Start).len()
}

/// The number of releases among `commands`.
pub open spec fn releases_among(commands: Seq<VoiceCommand>) -> nat {
    commands.filter(|command: VoiceCommand| command is Release).len()
}

/// The number of note-ons among `events`.
pub open spec fn note_ons_among(events: Seq<MidiEvent>) -> nat {
    events.filter(|event: MidiEvent| event.velocity > 0).len()
}

/// The number of note-offs among `events` that find a slot which sounds their note for their
/// channel, each in the pool as the events before it left it.
pub open spec fn matched_note_offs(slots: Seq<VoiceSlot>, events: Seq<MidiEvent>) -> nat {
    Seq::new(
        events.len(),
        |i: int|
            events[i].velocity == 0 && exists|j: int|
                0 <= j < after_events(slots, events.take(i)).len() && plays(
                    #[trigger] after_events(slots, events.take(i))[j],
                    events[i].channel,
                    events[i].note,
                ),
    ).filter(|matched: bool| matched).len()
}

/// For any run of events there are as many starts as note-ons, as many releases as note-offs
/// that find a sounding voice, and no other commands.
pub proof fn law_starts_and_releases_are_counted(slots: Seq<VoiceSlot>, events: Seq<MidiEvent>)
    requires
        slots.len() <= usize::MAX,
        playable(slots, events),
    ensures
        starts_among(commands_of(slots, events)) == note_ons_among(events),
        releases_among(commands_of(slots, events)) == matched_note_offs(slots, events),
        commands_of(slots, events).len() == note_ons_among(events) + matched_note_offs(
            slots,
            events,
        ),
    decreases events.len(),
{
    reveal(Seq::filter);
    if events.len() > 0 {
        let n = events.len() - 1;
        let init = events.drop_last();
        assert forall|i: int| 0 <= i < init.len() implies events[i] == #[trigger] init[i] by {}
        assert(playable(slots, init));
        law_starts_and_releases_are_counted(slots, init);
        law_every_event_is_answered(slots, events, n);
        assert(events.take(n) =~= init);
        assert(events.take(n + 1) =~= events);
        let before = commands_of(slots, init);
        let now = commands_of(slots, events);
        assert(now.len() > before.len() ==> now.drop_last() =~= before);
        let finds = |e: Seq<MidiEvent>, i: int|
            e[i].velocity == 0 && exists|j: int|
                0 <= j < after_events(slots, e.take(i)).len() && plays(
                    #[trigger] after_events(slots, e.take(i))[j],
                    e[i].channel,
                    e[i].note,
                );
        assert forall|i: int| 0 <= i < n implies #[trigger] finds(events, i) == finds(init, i) by {
            assert(events.take(i) =~= init.take(i));
            assert(events[i] == init[i]);
        }
        let early = Seq::new(
            init.len(),
            |i: int|
                init[i].velocity == 0 && exists|j: int|
                    0 <= j < after_events(slots, init.take(i)).len() && plays(
                        #[trigger] after_events(slots, init.take(i))[j],
                        init[i].channel,
                        init[i].note,
                    ),
        );
        let all = Seq::new(
            events.len(),
            |i: int|
                events[i].velocity == 0 && exists|j: int|
                    0 <= j < after_events(slots, events.take(i)).len() && plays(
                        #[trigger] after_events(slots, events.take(i))[j],
                        events[i].channel,
                        events[i].note,
                    ),
        );
        assert forall|i: int| 0 <= i < n implies #[trigger] all.drop_last()[i] == early[i] by {
            assert(finds(events, i) == finds(init, i));
        }
        assert(all.drop_last() =~= early);
        assert(all.last() == finds(events, n));
    }
}

/// A chunk takes the oldest events that are queued, as many as there are but no more than
/// 64.
pub proof fn law_chunk_takes_oldest_events(queue: Seq<MidiEvent>)
    ensures
        ({
            let taken = taken_events(queue);
            &&& taken.len() <= queue.len()
            &&& taken.len() <= 64
            &&& taken.len() == queue.len() || taken.len() == 64
            &&& taken + queue.skip(taken.len() as int) == queue
        }),
{
}

/// A chunk starts and releases first and renders then: its commands are those for the events
/// that it takes, and behind them one render for each slot that sounds after these, in order.
pub proof fn law_chunk_answers_and_renders(slots: Seq<VoiceSlot>, queue: Seq<MidiEvent>)
    requires
        slots.len() <= usize::MAX,
        playable(slots, taken_events(queue)),
    ensures
        ({
            let taken = taken_events(queue);
            let pool = after_events(slots, taken);
            let commands = chunk_commands(slots, queue);
            let n = commands_of(slots, taken).len() as int;
            &&& commands.take(n) == commands_of(slots, taken)
            &&& commands.len() == n + sounding_count(pool)
            &&& starts_among(commands) == note_ons_among(taken)
            &&& releases_among(commands) == matched_note_offs(slots, taken)
            &&& forall|k: int|
                n <= k < commands.len() ==> {
                    &&& (#[trigger] commands[k]) matches VoiceCommand::Render { slot }
                    &&& slot < pool.len()
                    &&& is_sounding(pool[slot as int])
                }
            &&& forall|k: int, m: int|
                n <= k < m < commands.len() ==> (#[trigger] commands[k])->Render_slot < (
                #[trigger] commands[m])->Render_slot
        }),
{
    let taken = taken_events(queue);
    let pool = after_events(slots, taken);
    let answers = commands_of(slots, taken);
    lemma_pool_keeps_size(slots, taken);
    law_renders_what_sounds(pool);
    law_starts_and_releases_are_counted(slots, taken);
    lemma_renders_start_nothing(answers, renders(pool));
    assert(chunk_commands(slots, queue).take(answers.len() as int) =~= answers);
    let commands = chunk_commands(slots, queue);
    assert forall|k: int| answers.len() <= k < commands.len() implies #[trigger] commands[k]
        == renders(pool)[k - answers.len()] by {}
}

/// Render commands behind others change neither the number of starts nor that of releases.
proof fn lemma_renders_start_nothing(commands: Seq<VoiceCommand>, rendered: Seq<VoiceCommand>)
    requires
        forall|k: int| 0 <= k < rendered.len() ==> (#[trigger] rendered[k]) is Render,
    ensures
        starts_among(commands + rendered) == starts_among(commands),
        releases_among(commands + rendered) == releases_among(commands),
    decreases rendered.len(),
{
    reveal(Seq::filter);
    if rendered.len() == 0 {
        assert(commands + rendered =~= commands);
    } else {
        lemma_renders_start_nothing(commands, rendered.drop_last());
        assert((commands + rendered).drop_last() =~= commands + rendered.drop_last());
        assert(rendered[rendered.len() - 1] is Render);
    }
}

/// The sweep clears exactly the slots that do not sound, and a report that a voice has rung out
/// silences that voice and changes nothing else of its slot.
pub proof fn law_sweep_clears_what_is_silent(slots: Seq<VoiceSlot>, i: int)
    requires
        0 <= i < slots.len(),
    ensures
        swept(slots).len() == slots.len(),
        is_sounding(slots[i]) ==> swept(slots)[i] == slots[i],
        !is_sounding(slots[i]) ==> swept(slots)[i] == VoiceSlot::Idle,
        finished_slot(VoiceSlot::Idle) == VoiceSlot::Idle,
        forall|voice: VoiceType, channel: u8, note: u8, sounding: bool| #[trigger]
            finished_slot(VoiceSlot::Active { voice, channel, note, sounding })
                == (VoiceSlot::Active { voice, channel, note, sounding: false }),
{
}

/// An ear hears every frame that is fed, and hearing changes nothing but the ear.
pub proof fn law_ear_hears_every_frame<E>(
    s: SynthState<E>,
    t: SynthState<E>,
    ops: crate::feel::EarRelation<E>,
    heard: Option<Heard<E>>,
)
    requires
        listens(s, t, ops, heard),
    ensures
        t.slots == s.slots,
        t.sample_rate == s.sample_rate,
        t.chunk_size == s.chunk_size,
        t.master_gain == s.master_gain,
        t.time_us == s.time_us,
        s.feel is Some <==> heard is Some,
        s.feel is Some <==> t.feel is Some,
        s.feel matches Some(ear) ==> crate::feel::hears(ear@, ops, heard->Some_0)
            && t.feel->Some_0@ == crate::feel::after(ear@, heard->Some_0),
{
}

/// The gain of a chunk is the master gain, scaled by what the ear feels: some multiplier of the
/// ear makes the one of the other. Without an ear it is the master gain itself.
pub proof fn law_chunk_gain_is_scaled_master<E>(
    s: SynthState<E>,
    shape: crate::feel::ShapeRelation<E>,
    full: E,
    gain: E,
)
    requires
        is_chunk_gain(s, shape, full, gain),
    ensures
        s.feel matches Some(ear) ==> exists|m: E| #[trigger]
            crate::feel::is_multiplier(ear@, shape, m) && (shape.scale)(s.master_gain, m, gain),
        s.feel is None ==> gain == s.master_gain,
{
    if let Some(ear) = s.feel {
        let state = RenderState { gain: s.master_gain, velocity: full };
        let shaped = choose|shaped: RenderState<E>|
            #[trigger] crate::feel::is_shaped(ear@, shape, state, shaped) && gain == shaped.gain;
        let m = choose|m: E| #[trigger]
            crate::feel::is_multiplier(ear@, shape, m) && (shape.scale)(state.gain, m, shaped.gain)
                && (shape.scale)(state.velocity, m, shaped.velocity);
        assert(crate::feel::is_multiplier(ear@, shape, m));
    }
}

/// The loudness of a chunk follows the feeling: its gain is above the master gain under a rising
/// pulse, below it under a falling one, and the master gain under a flat one.
///
/// The arithmetic has to push the way of the direction and to scale the way of the push.
pub proof fn law_chunk_gain_follows_feeling<E>(
    s: SynthState<E>,
    ear: FeelPulse<E>,
    shape: crate::feel::ShapeRelation<E>,
    less: spec_fn(E, E) -> bool,
    full: E,
    gain: E,
)
    requires
        is_chunk_gain(s, shape, full, gain),
        s.feel == Some(ear),
        forall|push: Push<E>| #[trigger]
            (shape.steady)(ear@.direction, push) ==> (ear@.felt is Rising ==> push.raises) && (
            ear@.felt is Falling ==> push.lowers),
        forall|push: Push<E>, m: E, y: E|
            ((shape.combine)(ear@.direction, ear@.rate, push) || (shape.steady)(
                ear@.direction,
                push,
            )) && #[trigger] (shape.multiplier)(push.value, m) && #[trigger] (shape.scale)(
                s.master_gain,
                m,
                y,
            ) ==> (push.raises ==> less(s.master_gain, y)) && (push.lowers ==> less(
                y,
                s.master_gain,
            )),
        forall|m: E, y: E| #[trigger]
            (shape.multiplier)(ear@.rest, m) && #[trigger] (shape.scale)(s.master_gain, m, y) ==> y
                == s.master_gain,
    ensures
        ear@.felt is Rising ==> less(s.master_gain, gain),
        ear@.felt is Falling ==> less(gain, s.master_gain),
        ear@.felt is Flat ==> gain == s.master_gain,
{
    law_chunk_gain_is_scaled_master(s, shape, full, gain);
    let m = choose|m: E| #[trigger]
        crate::feel::is_multiplier(ear@, shape, m) && (shape.scale)(s.master_gain, m, gain);
    crate::feel::law_output_follows_feeling(ear@, shape, less, m, s.master_gain, gain);
}

/// One chunk, as it is processed: as many starts are issued as note-ons are taken off the ring, as
/// many releases as note-offs that find a sounding voice, and a render for every voice that sounds
/// then; what is taken are the oldest events, and no event is lost; the pool keeps its size, the
/// time goes on by the length of the chunk, and nothing else changes.
pub proof fn law_process_chunk<E: Copy>(
    synth: &mut Synthesizer<E>,
    ring: &mut EventRing,
    chunk_us: u64,
    commands: &mut Vec<VoiceCommand>,
)
    requires
        call_ensures(Synthesizer::<E>::process_chunk, (synth, ring, chunk_us, commands), ()),
        playable(old(synth)@.slots, taken_events(old(ring)@)),
    ensures
        ({
            let n = old(ring)@.len() - final(ring)@.len();
            let taken = old(ring)@.take(n);
            let pool = after_events(old(synth)@.slots, taken);
            let issued = final(commands)@;
            &&& 0 <= n <= 64
            &&& n == 64 || final(ring)@.len() == 0
            &&& taken + final(ring)@ == old(ring)@
            &&& starts_among(issued) == note_ons_among(taken)
            &&& releases_among(issued) == matched_note_offs(old(synth)@.slots, taken)
            &&& issued.len() == note_ons_among(taken) + matched_note_offs(old(synth)@.slots, taken)
                + sounding_count(pool)
            &&& forall|i: int|
                0 <= i < pool.len() && is_sounding(#[trigger] pool[i]) ==> issued.contains(
                    VoiceCommand::Render { slot: i as usize },
                ) && final(synth)@.slots[i] == pool[i]
            &&& forall|i: int|
                0 <= i < pool.len() && !is_sounding(#[trigger] pool[i])
                    ==> final(synth)@.slots[i] is Idle
            &&& final(synth)@.slots.len() == old(synth)@.slots.len()
            &&& final(synth)@.time_us == old(synth)@.time_us + chunk_us
            &&& final(synth)@.sample_rate == old(synth)@.sample_rate
            &&& final(synth)@.chunk_size == old(synth)@.chunk_size
            &&& final(synth)@.master_gain == old(synth)@.master_gain
            &&& final(synth)@.feel == old(synth)@.feel
            &&& final(ring).spec_capacity() == old(ring).spec_capacity()
        }),
{
    let queue = old(ring)@;
    let slots = old(synth)@.slots;
    let taken = taken_events(queue);
    let n = taken.len() as int;
    assert(old(synth).voices.len() == slots.len());
    law_chunk_takes_oldest_events(queue);
    assert(queue.take(n) =~= taken);
    lemma_pool_keeps_size(slots, taken);
    law_chunk_answers_and_renders(slots, queue);
    law_starts_and_releases_are_counted(slots, taken);
    let pool = after_events(slots, taken);
    law_renders_what_sounds(pool);
    let answers = commands_of(slots, taken);
    let issued = final(commands)@;
    assert forall|i: int| 0 <= i < pool.len() && is_sounding(#[trigger] pool[i]) implies issued.contains(
        VoiceCommand::Render { slot: i as usize },
    ) by {
        let render = VoiceCommand::Render { slot: i as usize };
        assert(renders(pool).contains(render));
        let k = choose|k: int| 0 <= k < renders(pool).len() && renders(pool)[k] == render;
        assert(issued[answers.len() + k] == render);
    }
}

/// What is counted as sounding is what a chunk without events renders, and nothing more.
pub proof fn law_count_is_what_is_rendered<E: Copy>(
    synth: &mut Synthesizer<E>,
    ring: &mut EventRing,
    chunk_us: u64,
    commands: &mut Vec<VoiceCommand>,
    before: usize,
    after: usize,
)
    requires
        call_ensures(Synthesizer::<E>::process_chunk, (synth, ring, chunk_us, commands), ()),
        call_ensures(Synthesizer::<E>::active_voice_count, (&*old(synth),), before),
        call_ensures(Synthesizer::<E>::active_voice_count, (&*final(synth),), after),
        old(ring)@.len() == 0,
    ensures
        final(commands)@.len() == before,
        after == before,
        forall|k: int|
            0 <= k < final(commands)@.len() ==> (#[trigger] final(commands)@[k]) is Render,
{
    let slots = old(synth)@.slots;
    let none = taken_events(old(ring)@);
    assert(old(synth).voices.len() == slots.len());
    assert(none.len() == 0);
    law_renders_what_sounds(slots);
    assert(commands_of(slots, none) + renders(slots) =~= renders(slots));
    lemma_sweep_keeps_count(slots);
}

/// The sweep does not change how many voices sound.
proof fn lemma_sweep_keeps_count(slots: Seq<VoiceSlot>)
    ensures
        sounding_count(swept(slots)) == sounding_count(slots),
    decreases slots.len(),
{
    reveal(Seq::filter);
    if slots.len() > 0 {
        lemma_sweep_keeps_count(slots.drop_last());
        assert(swept(slots).drop_last() =~= swept(slots.drop_last()));
    } else {
        assert(swept(slots) =~= slots);
    }
}

/// A voice that is reported to have rung out is not counted any more, does not answer to its
/// note, and leaves all others as they are.
pub proof fn law_finished_voice_is_silent<E: Copy>(synth: &mut Synthesizer<E>, slot: usize)
    requires
        call_ensures(Synthesizer::<E>::voice_finished, (synth, slot), ()),
        slot < old(synth)@.slots.len(),
    ensures
        final(synth)@.slots.len() == old(synth)@.slots.len(),
        !is_sounding(final(synth)@.slots[slot as int]),
        forall|channel: u8, note: u8| !#[trigger]
            plays(final(synth)@.slots[slot as int], channel, note),
        old(synth)@.slots[slot as int] is Idle <==> final(synth)@.slots[slot as int] is Idle,
        forall|i: int|
            0 <= i < old(synth)@.slots.len() && i != slot ==> #[trigger] final(synth)@.slots[i]
                == old(synth)@.slots[i],
        final(synth)@.time_us == old(synth)@.time_us,
        final(synth)@.master_gain == old(synth)@.master_gain,
        final(synth)@.feel == old(synth)@.feel,
{
}

/// Feeding an ear is hearing the frame that is fed, and without an ear it is nothing.
pub proof fn law_fed_frame_is_heard<
    E: Copy,
    Fin: Fn(E) -> bool,
    Add: Fn(E, E) -> E,
    Sub: Fn(E, E) -> E,
    Sec: Fn(E, E, E) -> E,
    Mea: Fn(E, usize) -> E,
    Out: Fn(E, E) -> bool,
    Smo: Fn(E, u64) -> E,
    Gau: Fn(E, E) -> Gauge,
>(
    synth: &mut Synthesizer<E>,
    energy: E,
    ops: &EarArithmetic<Fin, Add, Sub, Sec, Mea, Out, Smo, Gau>,
    heard: Option<Heard<E>>,
)
    requires
        call_ensures(
            Synthesizer::<E>::feed_energy::<Fin, Add, Sub, Sec, Mea, Out, Smo, Gau>,
            (synth, energy, ops),
            heard,
        ),
    ensures
        old(synth)@.feel is None ==> heard is None && final(synth)@ == old(synth)@,
        old(synth)@.feel matches Some(ear) ==> {
            &&& heard matches Some(h)
            &&& h.frame == energy
            &&& crate::feel::hears(ear@, crate::feel::ear_relation(*ops), h)
            &&& final(synth)@.feel matches Some(listening)
            &&& listening@ == crate::feel::after(ear@, h)
            &&& final(synth)@.slots == old(synth)@.slots
            &&& final(synth)@.master_gain == old(synth)@.master_gain
            &&& final(synth)@.time_us == old(synth)@.time_us
        },
{
}

/// The gain of a chunk, as it is asked for: with an ear, the measured energy of the chunk is heard
/// first, and the gain is the master gain scaled by a multiplier that the ear feels after it.
/// Without one, it is the master gain, and nothing changes.
pub proof fn law_chunk_gain<
    E: Copy,
    Msr: Fn() -> E,
    Fin: Fn(E) -> bool,
    Add: Fn(E, E) -> E,
    Sub: Fn(E, E) -> E,
    Sec: Fn(E, E, E) -> E,
    Mea: Fn(E, usize) -> E,
    Out: Fn(E, E) -> bool,
    Smo: Fn(E, u64) -> E,
    Gau: Fn(E, E) -> Gauge,
    Com: Fn(E, E) -> Push<E>,
    Ste: Fn(E) -> Push<E>,
    Mul: Fn(E) -> E,
    Sca: Fn(E, E) -> E,
>(
    synth: &mut Synthesizer<E>,
    measure: Msr,
    full: E,
    ops: &EarArithmetic<Fin, Add, Sub, Sec, Mea, Out, Smo, Gau>,
    shape: &ShapeArithmetic<Com, Ste, Mul, Sca>,
    gain: E,
)
    requires
        call_ensures(
            Synthesizer::<E>::chunk_gain::<
                Msr,
                Fin,
                Add,
                Sub,
                Sec,
                Mea,
                Out,
                Smo,
                Gau,
                Com,
                Ste,
                Mul,
                Sca,
            >,
            (synth, measure, full, ops, shape),
            gain,
        ),
    ensures
        old(synth)@.feel is None ==> gain == old(synth)@.master_gain && final(synth)@
            == old(synth)@,
        old(synth)@.feel matches Some(ear) ==> {
            &&& final(synth)@.feel matches Some(listening)
            &&& exists|h: Heard<E>|
                #[trigger] crate::feel::hears(ear@, crate::feel::ear_relation(*ops), h)
                    && call_ensures(measure, (), h.frame) && listening@ == crate::feel::after(
                    ear@,
                    h,
                )
            &&& exists|m: E|
                #[trigger] crate::feel::is_multiplier(
                    listening@,
                    crate::feel::shape_relation(*shape),
                    m,
                ) && call_ensures(shape.scale, (old(synth)@.master_gain, m), gain)
        },
{
    let heard = choose|heard: Option<Heard<E>>|
        #[trigger] listens(
            old(synth)@,
            final(synth)@,
            crate::feel::ear_relation(*ops),
            heard,
        ) && (heard matches Some(h) ==> call_ensures(measure, (), h.frame));
    let relation = crate::feel::shape_relation(*shape);
    law_ear_hears_every_frame(
        old(synth)@,
        final(synth)@,
        crate::feel::ear_relation(*ops),
        heard,
    );
    law_chunk_gain_is_scaled_master(final(synth)@, relation, full, gain);
    if let Some(listening) = final(synth)@.feel {
        let m = choose|m: E| #[trigger]
            crate::feel::is_multiplier(listening@, relation, m) && (relation.scale)(
                final(synth)@.master_gain,
                m,
                gain,
            );
        assert(crate::feel::is_multiplier(listening@, relation, m));
        assert((relation.scale)(final(synth)@.master_gain, m, gain));
    }
}

/// A status report is due every ten seconds, and not at the start.
pub proof fn law_status_is_due_every_ten_seconds<E: Copy>(synth: &Synthesizer<E>, due: bool, k: int)
    requires
        call_ensures(Synthesizer::<E>::status_due, (synth,), due),
    ensures
        k > 0 && synth@.time_us == k * 10_000_000 ==> due,
        k * 10_000_000 < synth@.time_us < (k + 1) * 10_000_000 ==> !due,
        synth@.time_us == 0 ==> !due,
{
}

/// A note-off stops the note-on that it belongs to: if nothing else sounds that note for the
/// channel, the release goes to the very slot that the note-on started.
pub proof fn law_note_off_stops_its_note_on<E: Copy>(
    starting: &mut Synthesizer<E>,
    on: MidiEvent,
    started: Option<VoiceCommand>,
    stopping: &mut Synthesizer<E>,
    off: MidiEvent,
    stopped: Option<VoiceCommand>,
)
    requires
        call_ensures(Synthesizer::<E>::handle_event, (starting, on), started),
        *old(stopping) == *final(starting),
        call_ensures(Synthesizer::<E>::handle_event, (stopping, off), stopped),
        on.velocity > 0,
        off.velocity == 0,
        on.channel == off.channel,
        on.note == off.note,
        old(starting)@.slots.len() > 0,
        forall|i: int|
            0 <= i < old(starting)@.slots.len() ==> !plays(
                #[trigger] old(starting)@.slots[i],
                on.channel,
                on.note,
            ),
    ensures
        started matches Some(VoiceCommand::Start { slot, voice, note, velocity }) && stopped == Some(
            VoiceCommand::Release { slot },
        ) && note == on.note && velocity == on.velocity && voice == crate::midi::voice_of_channel(
            on.channel,
        ),
        final(stopping)@ == final(starting)@,
{
    let slots = old(starting)@.slots;
    let after = final(starting)@.slots;
    assert(old(starting).voices.len() == slots.len());
    law_note_on_sounds(slots, on);
    law_note_off_releases_first(after, off);
    let slot = started->Some_0->Start_slot as int;
    assert(plays(after[slot], off.channel, off.note));
    assert forall|i: int| 0 <= i < after.len() && i != slot implies !plays(
        #[trigger] after[i],
        off.channel,
        off.note,
    ) by {
        assert(after[i] == slots[i]);
    }
}

/// The dials are heard as the energy that `tilt` makes of loudness and warmth, in this order.
pub proof fn law_fed_dials_are_heard<
    E: Copy,
    Til: Fn(E, E) -> E,
    Fin: Fn(E) -> bool,
    Add: Fn(E, E) -> E,
    Sub: Fn(E, E) -> E,
    Sec: Fn(E, E, E) -> E,
    Mea: Fn(E, usize) -> E,
    Out: Fn(E, E) -> bool,
    Smo: Fn(E, u64) -> E,
    Gau: Fn(E, E) -> Gauge,
>(
    synth: &mut Synthesizer<E>,
    readings: DialsReadings<E>,
    tilt: Til,
    tilted: spec_fn(E, E) -> E,
    ops: &EarArithmetic<Fin, Add, Sub, Sec, Mea, Out, Smo, Gau>,
    heard: Option<Heard<E>>,
)
    requires
        call_ensures(
            Synthesizer::<E>::feed_dials::<Til, Fin, Add, Sub, Sec, Mea, Out, Smo, Gau>,
            (synth, readings, tilt, ops),
            heard,
        ),
        forall|a: E, b: E, r: E| #[trigger] call_ensures(tilt, (a, b), r) ==> r == tilted(a, b),
    ensures
        heard is Some <==> old(synth)@.feel is Some,
        heard matches Some(h) ==> h.frame == tilted(readings.volume, readings.mood),
        old(synth)@.feel is None ==> final(synth)@ == old(synth)@,
        final(synth)@.slots == old(synth)@.slots,
        final(synth)@.master_gain == old(synth)@.master_gain,
        final(synth)@.time_us == old(synth)@.time_us,
{
}

} // verus!
