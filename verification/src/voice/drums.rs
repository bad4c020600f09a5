//! Drum voice: which drum a note strikes, its noise, its level, and when it has rung out.

use vstd::prelude::*;

use super::noise::next_noise;

verus! {

/// The noise generator starts every hit from this word, so that all hits of a drum sound
/// alike.
pub const NOISE_SEED: u32 = 67890;

/// The drums.
#[derive(Debug, Clone, Copy, PartialEq, Eq, Structural)]
pub enum DrumType {
    /// Sine boom with pitch drop.
    Kick,
    /// Filtered noise and tone.
    Snare,
    /// High-passed noise, short.
    HiHat,
    /// Filtered noise, long decay.
    Crash,
}

/// The drum of a MIDI note. A note that is not mapped is a kick.
pub open spec fn drum_of_note(note: u8) -> DrumType {
    if note == 38 || note == 40 {
        DrumType::Snare
    } else if note == 42 || note == 46 {
        DrumType::HiHat
    } else if note == 49 || note == 57 {
        DrumType::Crash
    } else {
        DrumType::Kick
    }
}

/// The pitch of a kick: it starts high and drops.
#[derive(Debug, Clone, Copy, PartialEq, Eq, Structural)]
pub struct KickPitch {
    /// The frequency at the start, in Hz.
    pub start_hz: u32,
    /// The frequency that it drops to, in Hz.
    pub target_hz: u32,
    /// How far it drops per sample, in millionths of the sample rate.
    pub drop_ppm: u32,
}

/// How a drum sounds.
#[derive(Debug, Clone, Copy, PartialEq, Eq, Structural)]
pub struct DrumSound {
    /// How much the level falls per sample, in millionths of the full level.
    pub decay_ppm: u32,
    /// The pitch of a kick. The other drums are noise, whose filter starts afresh.
    pub pitch: Option<KickPitch>,
}

/// How much the level of a drum falls per sample, in millionths.
pub open spec fn decay_of(drum: DrumType) -> u32 {
    match drum {
        DrumType::Kick => 500,
        DrumType::Snare => 2_000,
        DrumType::HiHat => 10_000,
        DrumType::Crash => 300,
    }
}

/// How a drum sounds: the kick drops from 150 Hz to 50 Hz, and the others are noise.
pub open spec fn sound_of(drum: DrumType) -> DrumSound {
    DrumSound {
        decay_ppm: decay_of(drum),
        pitch: if drum is Kick {
            Some(KickPitch { start_hz: 150, target_hz: 50, drop_ppm: 1_000 })
        } else {
            None
        },
    }
}

impl DrumType {
    /// How the drum sounds.
    pub fn sound(&self) -> (sound: DrumSound)
        ensures
            sound == sound_of(*self),
    {
        match *self {
            DrumType::Kick => DrumSound {
                decay_ppm: 500,
                pitch: Some(KickPitch { start_hz: 150, target_hz: 50, drop_ppm: 1_000 }),
            },
            DrumType::Snare => DrumSound { decay_ppm: 2_000, pitch: None },
            DrumType::HiHat => DrumSound { decay_ppm: 10_000, pitch: None },
            DrumType::Crash => DrumSound { decay_ppm: 300, pitch: None },
        }
    }
}

/// The hi-hat is the shortest of the drums and the crash the longest.
pub proof fn law_hihat_short_crash_long(drum: DrumType)
    ensures
        decay_of(DrumType::Crash) <= decay_of(drum) <= decay_of(DrumType::HiHat),
        drum != DrumType::Crash ==> decay_of(DrumType::Crash) < decay_of(drum),
        drum != DrumType::HiHat ==> decay_of(drum) < decay_of(DrumType::HiHat),
{
}

/// What the sound engine has to generate for one sample.
#[derive(Debug, Clone, Copy, PartialEq, Eq, Structural)]
pub enum DrumTick {
    /// The hit has rung out.
    Silent,
    /// One sample of the boom.
    Kick,
    /// One sample of the snare, from this noise word.
    Snare { noise: u32 },
    /// One sample of the hi-hat, from this noise word.
    HiHat { noise: u32 },
    /// One sample of the crash, from this noise word.
    Crash { noise: u32 },
}

/// The arithmetic of the level of a hit.
#[derive(Clone, Copy)]
pub struct DrumArithmetic<Aud, Sub, Neg> {
    /// Is the level loud enough to go on?
    pub is_audible: Aud,
    /// The first level without the second.
    pub subtract: Sub,
    /// Is the level below silence?
    pub is_negative: Neg,
}

/// What a [`DrumArithmetic`] may give: its functions as relations.
#[verifier::reject_recursive_types(L)]
pub struct DrumRelation<L> {
    pub is_audible: spec_fn(L, bool) -> bool,
    pub subtract: spec_fn(L, L, L) -> bool,
    pub is_negative: spec_fn(L, bool) -> bool,
}

/// What the arithmetic may give.
pub open spec fn drum_relation<
    L,
    Aud: Fn(L) -> bool,
    Sub: Fn(L, L) -> L,
    Neg: Fn(L) -> bool,
>(ops: DrumArithmetic<Aud, Sub, Neg>) -> DrumRelation<L> {
    DrumRelation {
        is_audible: crate::relation::unary(ops.is_audible),
        subtract: crate::relation::binary(ops.subtract),
        is_negative: crate::relation::unary(ops.is_negative),
    }
}

/// The arithmetic can be asked of any levels.
pub open spec fn drum_total<
    L,
    Aud: Fn(L) -> bool,
    Sub: Fn(L, L) -> L,
    Neg: Fn(L) -> bool,
>(ops: DrumArithmetic<Aud, Sub, Neg>) -> bool {
    &&& forall|a: L| call_requires(ops.is_audible, (a,))
    &&& forall|a: L, b: L| call_requires(ops.subtract, (a, b))
    &&& forall|a: L| call_requires(ops.is_negative, (a,))
}

/// Drum voice with levels of type `L`.
#[derive(Debug, Clone, Copy)]
pub struct DrumVoice<L> {
    note: Option<u8>,
    drum_type: DrumType,
    noise_state: u32,
    level: L,
    decay_rate: L,
    silence: L,
    active: bool,
}

/// The state of a drum voice, as a mathematical value.
pub struct DrumState<L> {
    /// The note struck last.
    pub note: Option<u8>,
    pub drum_type: DrumType,
    /// The noise word given last.
    pub noise_state: u32,
    /// How loud the hit is.
    pub level: L,
    /// How much the level falls per sample.
    pub decay_rate: L,
    /// The level of silence.
    pub silence: L,
    /// Does the hit still ring?
    pub active: bool,
}

impl<L> View for DrumVoice<L> {
    type V = DrumState<L>;

    closed spec fn view(&self) -> DrumState<L> {
        DrumState {
            note: self.note,
            drum_type: self.drum_type,
            noise_state: self.noise_state,
            level: self.level,
            decay_rate: self.decay_rate,
            silence: self.silence,
            active: self.active,
        }
    }
}

/// What becomes of the level in one sample.
#[derive(Debug, Clone, Copy)]
pub struct Fall<L> {
    /// Is the hit loud enough to go on?
    pub audible: bool,
    /// The level that it falls to.
    pub level: L,
    /// Is that below silence?
    pub negative: bool,
}

/// `fall` is what becomes of the level of the hit in one sample. Where it is not audible any
/// more, nothing is said of the rest.
pub open spec fn is_fall<L>(d: DrumState<L>, ops: DrumRelation<L>, fall: Fall<L>) -> bool {
    &&& (ops.is_audible)(d.level, fall.audible)
    &&& fall.audible ==> {
        &&& (ops.subtract)(d.level, d.decay_rate, fall.level)
        &&& (ops.is_negative)(fall.level, fall.negative)
    }
}

/// What one sample generates, where `audible` says whether the hit is loud enough to go on.
pub open spec fn tick_of<L>(d: DrumState<L>, audible: bool) -> DrumTick {
    let noise = super::noise::xorshift(d.noise_state);
    if !audible {
        DrumTick::Silent
    } else {
        match d.drum_type {
            DrumType::Kick => DrumTick::Kick,
            DrumType::Snare => DrumTick::Snare { noise },
            DrumType::HiHat => DrumTick::HiHat { noise },
            DrumType::Crash => DrumTick::Crash { noise },
        }
    }
}

/// The voice one sample later: a hit that is not audible any more has ended; else its level
/// falls, to silence at the lowest, and every drum but the kick uses up one noise word.
pub open spec fn ticked<L>(d: DrumState<L>, fall: Fall<L>) -> DrumState<L> {
    if !fall.audible {
        DrumState { active: false, ..d }
    } else {
        DrumState {
            noise_state: if d.drum_type is Kick {
                d.noise_state
            } else {
                super::noise::xorshift(d.noise_state)
            },
            level: if fall.negative {
                d.silence
            } else {
                fall.level
            },
            ..d
        }
    }
}

/// The voice right after `note` was struck, at a level that falls by `decay_rate` per sample.
pub open spec fn struck<L>(note: u8, level: L, decay_rate: L, silence: L) -> DrumState<L> {
    DrumState {
        note: Some(note),
        drum_type: drum_of_note(note),
        noise_state: NOISE_SEED,
        level,
        decay_rate,
        silence,
        active: true,
    }
}

impl<L: Copy> DrumVoice<L> {
    /// A drum that was never struck.
    pub fn new(silence: L) -> (drum: DrumVoice<L>)
        ensures
            drum@ == (DrumState {
                note: None,
                drum_type: DrumType::Kick,
                noise_state: NOISE_SEED,
                level: silence,
                decay_rate: silence,
                silence,
                active: false,
            }),
    {
        DrumVoice {
            note: None,
            drum_type: DrumType::Kick,
            noise_state: NOISE_SEED,
            level: silence,
            decay_rate: silence,
            silence,
            active: false,
        }
    }

    /// Map a MIDI note to its drum.
    pub fn note_to_drum(note: u8) -> (drum: DrumType)
        ensures
            drum == drum_of_note(note),
    {
        match note {
            35 | 36 => DrumType::Kick,
            38 | 40 => DrumType::Snare,
            42 | 46 => DrumType::HiHat,
            49 | 57 => DrumType::Crash,
            _ => DrumType::Kick,
        }
    }

    /// Strike a note at a level. `rate` turns millionths into how much the level falls per
    /// sample. Returns how the hit sounds.
    pub fn note_on<R: Fn(u32) -> L>(&mut self, note: u8, level: L, rate: R) -> (sound: DrumSound)
        requires
            forall|ppm: u32| call_requires(rate, (ppm,)),
        ensures
            sound == sound_of(drum_of_note(note)),
            call_ensures(rate, (sound.decay_ppm,), final(self)@.decay_rate),
            final(self)@ == struck(note, level, final(self)@.decay_rate, old(self)@.silence),
    {
        self.note = Some(note);
        let drum = DrumVoice::<L>::note_to_drum(note);
        let sound = self.configure(drum, level, rate);
        self.active = true;
        sound
    }

    /// Set up the voice for a drum. Returns how it sounds.
    fn configure<R: Fn(u32) -> L>(&mut self, drum_type: DrumType, level: L, rate: R) -> (sound:
        DrumSound)
        requires
            forall|ppm: u32| call_requires(rate, (ppm,)),
        ensures
            sound == sound_of(drum_type),
            call_ensures(rate, (sound.decay_ppm,), final(self)@.decay_rate),
            final(self)@ == (DrumState {
                drum_type,
                noise_state: NOISE_SEED,
                level,
                decay_rate: final(self)@.decay_rate,
                ..old(self)@
            }),
    {
        let sound = drum_type.sound();
        self.drum_type = drum_type;
        self.level = level;
        self.noise_state = NOISE_SEED;
        self.decay_rate = rate(sound.decay_ppm);
        sound
    }

    /// Let go of the drum. It decays by itself; `quicken` makes the decay faster.
    pub fn note_off<Q: Fn(L) -> L>(&mut self, quicken: Q)
        requires
            call_requires(quicken, (old(self)@.decay_rate,)),
        ensures
            call_ensures(quicken, (old(self)@.decay_rate,), final(self)@.decay_rate),
            final(self)@ == (DrumState { decay_rate: final(self)@.decay_rate, ..old(self)@ }),
    {
        self.decay_rate = quicken(self.decay_rate);
    }

    /// The next noise word.
    fn noise_sample(&mut self) -> (word: u32)
        ensures
            word == super::noise::xorshift(old(self)@.noise_state),
            final(self)@ == (DrumState { noise_state: word, ..old(self)@ }),
    {
        self.noise_state = next_noise(self.noise_state);
        self.noise_state
    }

    /// Advance by one sample. Returns what to generate, and the level to scale it by.
    pub fn render_sample<Aud: Fn(L) -> bool, Sub: Fn(L, L) -> L, Neg: Fn(L) -> bool>(
        &mut self,
        ops: &DrumArithmetic<Aud, Sub, Neg>,
    ) -> (sample: (DrumTick, L))
        requires
            drum_total::<L, Aud, Sub, Neg>(*ops),
        ensures
            exists|fall: Fall<L>|
                #[trigger] is_fall(old(self)@, drum_relation(*ops), fall) && sample.0 == tick_of(
                    old(self)@,
                    fall.audible,
                ) && final(self)@ == ticked(old(self)@, fall),
            sample.1 == old(self)@.level,
    {
        let level = self.level;
        let audible = (ops.is_audible)(level);
        if !audible {
            self.active = false;
            assert(is_fall(
                old(self)@,
                drum_relation(*ops),
                Fall { audible, level, negative: false },
            ));
            return (DrumTick::Silent, level);
        }
        let tick = match self.drum_type {
            DrumType::Kick => DrumTick::Kick,
            DrumType::Snare => {
                let noise: u32 = self.noise_sample();
                DrumTick::Snare { noise }
            },
            DrumType::HiHat => {
                let noise: u32 = self.noise_sample();
                DrumTick::HiHat { noise }
            },
            DrumType::Crash => {
                let noise: u32 = self.noise_sample();
                DrumTick::Crash { noise }
            },
        };
        let fallen = (ops.subtract)(level, self.decay_rate);
        let negative = (ops.is_negative)(fallen);
        self.level = if negative {
            self.silence
        } else {
            fallen
        };
        assert(is_fall(
            old(self)@,
            drum_relation(*ops),
            Fall { audible, level: fallen, negative },
        ));
        (tick, level)
    }

    /// Does the hit still ring?
    pub fn is_active(&self) -> (active: bool)
        ensures
            active == self@.active,
    {
        self.active
    }

    /// The note that rings, or `None` if the hit has rung out.
    pub fn current_note(&self) -> (note: Option<u8>)
        ensures
            note == (if self@.active {
                self@.note
            } else {
                None
            }),
    {
        if self.active {
            self.note
        } else {
            None
        }
    }
}

/// A drum after a number of samples.
pub open spec fn rung<L>(d: DrumState<L>, falls: Seq<Fall<L>>) -> DrumState<L>
    decreases falls.len(),
{
    if falls.len() == 0 {
        d
    } else {
        ticked(rung(d, falls.drop_last()), falls.last())
    }
}

/// All hits of a drum sound alike: the noise of each sample depends on nothing but the drum and
/// the number of samples, and a hit goes on as long as it is audible.
pub proof fn law_hits_sound_alike<L>(
    note: u8,
    level: L,
    decay_rate: L,
    silence: L,
    falls: Seq<Fall<L>>,
)
    requires
        forall|i: int| 0 <= i < falls.len() ==> (#[trigger] falls[i]).audible,
    ensures
        ({
            let hit = struck(note, level, decay_rate, silence);
            let d = rung(hit, falls);
            &&& d == (DrumState {
                noise_state: if drum_of_note(note) is Kick {
                    NOISE_SEED
                } else {
                    super::noise::noise_word(NOISE_SEED, falls.len())
                },
                level: d.level,
                ..hit
            })
            &&& d.active
            &&& d.noise_state != 0
        }),
    decreases falls.len(),
{
    if falls.len() > 0 {
        let init = falls.drop_last();
        assert forall|i: int| 0 <= i < init.len() implies (#[trigger] init[i]).audible by {
            assert(init[i] == falls[i]);
        }
        assert(falls[falls.len() - 1].audible);
        law_hits_sound_alike(note, level, decay_rate, silence, init);
    }
    super::noise::law_noise_never_dies(NOISE_SEED, falls.len());
}

/// A hit that is not audible any more has ended: it is not active and plays no note, and
/// nothing but striking it again brings it back.
pub proof fn law_inaudible_hit_ends<L>(d: DrumState<L>, fall: Fall<L>, falls: Seq<Fall<L>>)
    requires
        !fall.audible,
    ensures
        tick_of(d, fall.audible) == DrumTick::Silent,
        !rung(ticked(d, fall), falls).active,
    decreases falls.len(),
{
    if falls.len() > 0 {
        law_inaudible_hit_ends(d, fall, falls.drop_last());
    }
}

/// The samples follow each other: each fall is what becomes of the level as the falls before it
/// left it.
pub open spec fn falls_along<L>(d: DrumState<L>, ops: DrumRelation<L>, falls: Seq<Fall<L>>) -> bool {
    forall|i: int|
        0 <= i < falls.len() ==> is_fall(rung(d, falls.take(i)), ops, #[trigger] falls[i])
}

/// The levels can be measured by `value`: differences are differences, silence is zero and
/// nothing else is below silence than what is less.
pub open spec fn measures<L>(ops: DrumRelation<L>, value: spec_fn(L) -> int, silence: L) -> bool {
    &&& value(silence) == 0
    &&& forall|a: L, b: L, r: L| #[trigger]
        (ops.subtract)(a, b, r) ==> value(r) == value(a) - value(b)
    &&& forall|a: L, negative: bool| #[trigger]
        (ops.is_negative)(a, negative) ==> negative == (value(a) < 0)
}

/// The level of every drum falls evenly: after so many audible samples it has lost as many times
/// the decay rate, and it stops at silence.
pub proof fn law_level_falls_evenly<L>(
    d: DrumState<L>,
    ops: DrumRelation<L>,
    value: spec_fn(L) -> int,
    falls: Seq<Fall<L>>,
)
    requires
        measures(ops, value, d.silence),
        falls_along(d, ops, falls),
        forall|i: int| 0 <= i < falls.len() ==> (#[trigger] falls[i]).audible,
        value(d.level) >= 0,
        value(d.decay_rate) >= 0,
    ensures
        ({
            let left = value(d.level) - falls.len() * value(d.decay_rate);
            &&& value(rung(d, falls).level) == (if left < 0 {
                0
            } else {
                left
            })
            &&& rung(d, falls).decay_rate == d.decay_rate
            &&& rung(d, falls).silence == d.silence
            &&& rung(d, falls).active == d.active
        }),
    decreases falls.len(),
{
    if falls.len() > 0 {
        let n = falls.len() - 1;
        let init = falls.drop_last();
        assert forall|i: int| 0 <= i < init.len() implies is_fall(
            rung(d, init.take(i)),
            ops,
            #[trigger] init[i],
        ) && init[i].audible by {
            assert(init[i] == falls[i]);
            assert(init.take(i) =~= falls.take(i));
        }
        law_level_falls_evenly(d, ops, value, init);
        assert(falls.take(n) =~= init);
        assert(is_fall(rung(d, init), ops, falls[n]));
        assert(falls[n].audible);
        let rate = value(d.decay_rate);
        assert((n + 1) * rate == n * rate + rate) by (nonlinear_arith);
    }
}

/// Every hit dies: if each sample takes something off the level and silence is not audible, the
/// hit has ended once the samples would have taken off more than there was, and stays so.
pub proof fn law_every_hit_dies<L>(
    d: DrumState<L>,
    ops: DrumRelation<L>,
    value: spec_fn(L) -> int,
    falls: Seq<Fall<L>>,
    n: nat,
)
    requires
        measures(ops, value, d.silence),
        falls_along(d, ops, falls),
        forall|a: L, audible: bool| #[trigger]
            (ops.is_audible)(a, audible) && audible ==> value(a) > 0,
        value(d.level) >= 0,
        value(d.decay_rate) > 0,
        n * value(d.decay_rate) >= value(d.level),
        falls.len() > n,
    ensures
        exists|i: int| 0 <= i <= n && !(#[trigger] falls[i]).audible,
        !rung(d, falls).active,
{
    if forall|i: int| 0 <= i <= n ==> (#[trigger] falls[i]).audible {
        let first = falls.take(n as int);
        assert forall|i: int| 0 <= i < first.len() implies is_fall(
            rung(d, first.take(i)),
            ops,
            #[trigger] first[i],
        ) && first[i].audible by {
            assert(first[i] == falls[i]);
            assert(first.take(i) =~= falls.take(i));
        }
        law_level_falls_evenly(d, ops, value, first);
        assert(is_fall(rung(d, first), ops, falls[n as int]));
        assert(falls[n as int].audible);
        assert((ops.is_audible)(rung(d, first).level, true));
        assert(false);
    }
    let i = choose|i: int| 0 <= i <= n && !(#[trigger] falls[i]).audible;
    lemma_stays_ended(d, falls, i);
}

/// After an inaudible sample the hit is not active.
proof fn lemma_stays_ended<L>(d: DrumState<L>, falls: Seq<Fall<L>>, i: int)
    requires
        0 <= i < falls.len(),
        !falls[i].audible,
    ensures
        !rung(d, falls).active,
    decreases falls.len(),
{
    if i < falls.len() - 1 {
        assert(falls.drop_last()[i] == falls[i]);
        lemma_stays_ended(d, falls.drop_last(), i);
    }
}

/// Each sample that is audible is one of the drum that was struck, and the noise of the `k`th
/// sample of a hit is the `k`th word of the generator, counted from one.
pub proof fn law_hit_sounds_as_its_drum<L>(
    note: u8,
    level: L,
    decay_rate: L,
    silence: L,
    falls: Seq<Fall<L>>,
)
    requires
        forall|i: int| 0 <= i < falls.len() ==> (#[trigger] falls[i]).audible,
    ensures
        ({
            let hit = struck(note, level, decay_rate, silence);
            let tick = tick_of(rung(hit, falls), true);
            let word = super::noise::noise_word(NOISE_SEED, falls.len() + 1);
            &&& drum_of_note(note) is Kick ==> tick == DrumTick::Kick
            &&& drum_of_note(note) is Snare ==> tick == (DrumTick::Snare { noise: word })
            &&& drum_of_note(note) is HiHat ==> tick == (DrumTick::HiHat { noise: word })
            &&& drum_of_note(note) is Crash ==> tick == (DrumTick::Crash { noise: word })
            &&& tick_of(rung(hit, falls), false) == DrumTick::Silent
            &&& hit.level == level && hit.decay_rate == decay_rate && hit.silence == silence
            &&& hit.active && hit.note == Some(note)
        }),
{
    law_hits_sound_alike(note, level, decay_rate, silence, falls);
}

/// One sample of a drum: the level that is handed out is the one before the fall, and the level
/// then is less by the decay rate, or silence, or has not changed because the hit has ended,
/// which shows in a silent sample, in the hit not being active and in no note being played.
pub proof fn law_sample_of_a_drum<
    L: Copy,
    Aud: Fn(L) -> bool,
    Sub: Fn(L, L) -> L,
    Neg: Fn(L) -> bool,
>(
    drum: &mut DrumVoice<L>,
    ops: &DrumArithmetic<Aud, Sub, Neg>,
    sample: (DrumTick, L),
    value: spec_fn(L) -> int,
    note: Option<u8>,
)
    requires
        call_ensures(DrumVoice::<L>::render_sample::<Aud, Sub, Neg>, (drum, ops), sample),
        call_ensures(DrumVoice::<L>::current_note, (&*final(drum),), note),
        measures(drum_relation(*ops), value, old(drum)@.silence),
    ensures
        sample.1 == old(drum)@.level,
        ({
            let left = value(old(drum)@.level) - value(old(drum)@.decay_rate);
            &&& sample.0 == DrumTick::Silent ==> {
                &&& final(drum)@.level == old(drum)@.level
                &&& !final(drum)@.active
                &&& note is None
                &&& call_ensures(ops.is_audible, (old(drum)@.level,), false)
            }
            &&& sample.0 != DrumTick::Silent ==> {
                &&& value(final(drum)@.level) == (if left < 0 {
                    0
                } else {
                    left
                })
                &&& final(drum)@.active == old(drum)@.active
                &&& call_ensures(ops.is_audible, (old(drum)@.level,), true)
                &&& note == (if old(drum)@.active {
                    old(drum)@.note
                } else {
                    None
                })
            }
            &&& final(drum)@.note == old(drum)@.note
            &&& final(drum)@.drum_type == old(drum)@.drum_type
            &&& final(drum)@.decay_rate == old(drum)@.decay_rate
            &&& final(drum)@.silence == old(drum)@.silence
        }),
{
    let fall = choose|fall: Fall<L>|
        #[trigger] is_fall(old(drum)@, drum_relation(*ops), fall) && sample.0 == tick_of(
            old(drum)@,
            fall.audible,
        ) && final(drum)@ == ticked(old(drum)@, fall);
    assert(is_fall(old(drum)@, drum_relation(*ops), fall));
}

/// Each drum has its notes, and a kick is what has none.
pub proof fn law_drums_have_their_notes(note: u8)
    ensures
        drum_of_note(note) is Snare <==> note == 38 || note == 40,
        drum_of_note(note) is HiHat <==> note == 42 || note == 46,
        drum_of_note(note) is Crash <==> note == 49 || note == 57,
        drum_of_note(note) is Kick <==> !(note == 38 || note == 40 || note == 42 || note == 46 || note
            == 49 || note == 57),
{
}

/// Letting go of a drum makes it decay faster, and does nothing else: neither its level nor its
/// sound changes at once.
pub proof fn law_let_go_drum_decays_faster<L: Copy, Q: Fn(L) -> L>(
    drum: &mut DrumVoice<L>,
    quicken: Q,
    quickened: spec_fn(L) -> L,
)
    requires
        call_ensures(DrumVoice::<L>::note_off::<Q>, (drum, quicken), ()),
        forall|a: L, r: L| #[trigger] call_ensures(quicken, (a,), r) ==> r == quickened(a),
    ensures
        final(drum)@.decay_rate == quickened(old(drum)@.decay_rate),
        final(drum)@.level == old(drum)@.level,
        final(drum)@.active == old(drum)@.active,
        final(drum)@.note == old(drum)@.note,
        final(drum)@.drum_type == old(drum)@.drum_type,
        final(drum)@.noise_state == old(drum)@.noise_state,
        final(drum)@.silence == old(drum)@.silence,
{
}

/// A drum that is struck sounds at the level of the strike and plays the note, whatever it did
/// before, and falls at the rate of its drum.
pub proof fn law_struck_drum_sounds<L: Copy, R: Fn(u32) -> L>(
    drum: &mut DrumVoice<L>,
    note: u8,
    level: L,
    rate: R,
    fall: spec_fn(u32) -> L,
    sound: DrumSound,
    active: bool,
    playing: Option<u8>,
)
    requires
        call_ensures(DrumVoice::<L>::note_on::<R>, (drum, note, level, rate), sound),
        call_ensures(DrumVoice::<L>::is_active, (&*final(drum),), active),
        call_ensures(DrumVoice::<L>::current_note, (&*final(drum),), playing),
        forall|ppm: u32, r: L| #[trigger] call_ensures(rate, (ppm,), r) ==> r == fall(ppm),
    ensures
        active,
        playing == Some(note),
        final(drum)@.level == level,
        final(drum)@.decay_rate == fall(sound.decay_ppm),
        final(drum)@.drum_type == drum_of_note(note),
        sound.pitch is Some <==> drum_of_note(note) is Kick,
        sound.decay_ppm == decay_of(drum_of_note(note)),
        final(drum)@.silence == old(drum)@.silence,
{
}

} // verus!
