//! What the synthesis voices share: the envelope and the key that drives it.
//!
//! Levels are of any type `L`, and the arithmetic on them is handed in as a
//! [`RampArithmetic`].

pub mod drums;
pub mod guitar;
pub mod noise;

use vstd::prelude::*;

verus! {

/// The segment that an envelope is in.
#[derive(Debug, Clone, Copy, PartialEq, Eq, Structural)]
pub enum EnvelopePhase {
    Idle,
    Attack,
    Decay,
    Sustain,
    Release,
}

/// The state of an envelope, as a mathematical value.
pub struct EnvelopeState<L> {
    /// Attack time in seconds.
    pub attack: L,
    /// Decay time in seconds.
    pub decay: L,
    /// Sustain level.
    pub sustain: L,
    /// Release time in seconds.
    pub release: L,
    pub sample_rate: L,
    /// The level of silence.
    pub silence: L,
    /// The level at the end of the attack.
    pub full: L,
    /// Is the sustain level above silence?
    pub sustains: bool,
    pub phase: EnvelopePhase,
    pub level: L,
    pub release_start_level: L,
}

/// The envelope after a note-on: the attack starts from silence.
pub open spec fn triggered<L>(e: EnvelopeState<L>) -> EnvelopeState<L> {
    EnvelopeState { phase: EnvelopePhase::Attack, level: e.silence, ..e }
}

/// The envelope after a note-off: the release starts from the level reached, unless the
/// envelope is idle.
pub open spec fn released<L>(e: EnvelopeState<L>) -> EnvelopeState<L> {
    if e.phase is Idle {
        e
    } else {
        EnvelopeState { phase: EnvelopePhase::Release, release_start_level: e.level, ..e }
    }
}

/// The envelope one sample later, where the ramp of its segment leads to `ramped` and has
/// `reached` the level that ends the segment. An idle envelope is silent and a sustained
/// one holds its sustain level, whatever the ramp.
pub open spec fn processed<L>(e: EnvelopeState<L>, ramped: L, reached: bool) -> EnvelopeState<L> {
    match e.phase {
        EnvelopePhase::Idle => EnvelopeState { level: e.silence, ..e },
        EnvelopePhase::Attack => if reached {
            EnvelopeState { level: e.full, phase: EnvelopePhase::Decay, ..e }
        } else {
            EnvelopeState { level: ramped, ..e }
        },
        EnvelopePhase::Decay => if reached {
            EnvelopeState { level: e.sustain, phase: EnvelopePhase::Sustain, ..e }
        } else {
            EnvelopeState { level: ramped, ..e }
        },
        EnvelopePhase::Sustain => EnvelopeState { level: e.sustain, ..e },
        EnvelopePhase::Release => if reached {
            EnvelopeState { level: e.silence, phase: EnvelopePhase::Idle, ..e }
        } else {
            EnvelopeState { level: ramped, ..e }
        },
    }
}

/// The arithmetic of the ramps, as functions on levels and times.
#[derive(Clone, Copy)]
pub struct RampArithmetic<Las, Gli, Leq> {
    /// Does a segment of this time last at all?
    pub lasts: Las,
    /// The level one sample later, on a ramp of a time, at a sample rate, from one level to
    /// another.
    pub glide: Gli,
    /// Is the first level at most the second?
    pub le: Leq,
}

/// What a [`RampArithmetic`] may give: its functions as relations.
#[verifier::reject_recursive_types(L)]
pub struct RampRelation<L> {
    pub lasts: spec_fn(L, bool) -> bool,
    pub glide: spec_fn(L, L, L, L, L, L) -> bool,
    pub le: spec_fn(L, L, bool) -> bool,
}

/// What the arithmetic may give.
pub open spec fn ramp_relation<
    L,
    Las: Fn(L) -> bool,
    Gli: Fn(L, L, L, L, L) -> L,
    Leq: Fn(L, L) -> bool,
>(ops: RampArithmetic<Las, Gli, Leq>) -> RampRelation<L> {
    RampRelation {
        lasts: crate::relation::unary(ops.lasts),
        glide: crate::relation::quinary(ops.glide),
        le: crate::relation::binary(ops.le),
    }
}

/// The arithmetic can be asked of any levels and times.
pub open spec fn ramp_total<
    L,
    Las: Fn(L) -> bool,
    Gli: Fn(L, L, L, L, L) -> L,
    Leq: Fn(L, L) -> bool,
>(ops: RampArithmetic<Las, Gli, Leq>) -> bool {
    &&& forall|a: L| call_requires(ops.lasts, (a,))
    &&& forall|a: L, b: L, c: L, d: L, e: L| call_requires(ops.glide, (a, b, c, d, e))
    &&& forall|a: L, b: L| call_requires(ops.le, (a, b))
}

/// One step of a ramp.
#[derive(Debug, Clone, Copy)]
pub struct Ramp<L> {
    /// Does the segment last at all?
    pub lasts: bool,
    /// The level that the ramp leads to.
    pub level: L,
    /// Is that the end of the segment?
    pub reached: bool,
}

/// `ramp` is the next step of the segment that the envelope is in. The attack glides from
/// silence to full, the decay from full to the sustain level, and the release from the level
/// that it started at to silence, each in its own time; a segment that takes no time jumps to
/// its end. Idle and sustained envelopes have no ramp.
pub open spec fn is_ramp<L>(e: EnvelopeState<L>, ops: RampRelation<L>, ramp: Ramp<L>) -> bool {
    match e.phase {
        EnvelopePhase::Attack => {
            &&& glides(e, ops, e.attack, e.silence, e.full, ramp)
            &&& (ops.le)(e.full, ramp.level, ramp.reached)
        },
        EnvelopePhase::Decay => {
            &&& glides(e, ops, e.decay, e.full, e.sustain, ramp)
            &&& (ops.le)(ramp.level, e.sustain, ramp.reached)
        },
        EnvelopePhase::Release => {
            &&& glides(e, ops, e.release, e.release_start_level, e.silence, ramp)
            &&& (ops.le)(ramp.level, e.silence, ramp.reached)
        },
        EnvelopePhase::Idle | EnvelopePhase::Sustain => true,
    }
}

/// The level of `ramp` is one sample further on the way `from` one level `to` another that
/// takes `time`, or the end of the way if it takes none.
pub open spec fn glides<L>(
    e: EnvelopeState<L>,
    ops: RampRelation<L>,
    time: L,
    from: L,
    to: L,
    ramp: Ramp<L>,
) -> bool {
    &&& (ops.lasts)(time, ramp.lasts)
    &&& if ramp.lasts {
        (ops.glide)(e.level, time, e.sample_rate, from, to, ramp.level)
    } else {
        ramp.level == to
    }
}

/// From `e` to `f` the envelope advances by one sample.
pub open spec fn advances<L>(
    e: EnvelopeState<L>,
    ops: RampRelation<L>,
    f: EnvelopeState<L>,
) -> bool {
    exists|ramp: Ramp<L>| #[trigger]
        is_ramp(e, ops, ramp) && f == processed(e, ramp.level, ramp.reached)
}

/// Has the envelope rung out? It has when it is idle, and also when it holds a sustain level
/// of silence, from which no sound comes any more.
pub open spec fn rung_out<L>(e: EnvelopeState<L>) -> bool {
    e.phase is Idle || (e.phase is Sustain && !e.sustains)
}

/// The envelope after the key is let go: a voice that has rung out has nothing to release.
pub open spec fn let_go<L>(e: EnvelopeState<L>) -> EnvelopeState<L> {
    if rung_out(e) {
        e
    } else {
        released(e)
    }
}

/// Attack, decay, sustain, release envelope generator.
#[derive(Debug, Clone, Copy)]
pub struct AdsrEnvelope<L> {
    attack: L,
    decay: L,
    sustain: L,
    release: L,
    sample_rate: L,
    silence: L,
    full: L,
    sustains: bool,
    phase: EnvelopePhase,
    level: L,
    release_start_level: L,
}

impl<L> View for AdsrEnvelope<L> {
    type V = EnvelopeState<L>;

    closed spec fn view(&self) -> EnvelopeState<L> {
        EnvelopeState {
            attack: self.attack,
            decay: self.decay,
            sustain: self.sustain,
            release: self.release,
            sample_rate: self.sample_rate,
            silence: self.silence,
            full: self.full,
            sustains: self.sustains,
            phase: self.phase,
            level: self.level,
            release_start_level: self.release_start_level,
        }
    }
}

/// The times, levels and rate that an envelope is made with.
#[derive(Debug, Clone, Copy)]
pub struct EnvelopeShape<L> {
    /// Attack time in seconds.
    pub attack: L,
    /// Decay time in seconds.
    pub decay: L,
    /// Sustain level.
    pub sustain: L,
    /// Release time in seconds.
    pub release: L,
    /// Samples per second.
    pub sample_rate: L,
    /// The level of silence.
    pub silence: L,
    /// The level at the end of the attack.
    pub full: L,
    /// Is the sustain level above silence?
    pub sustains: bool,
}

/// An idle, silent envelope of the given shape.
pub open spec fn idle_envelope<L>(shape: EnvelopeShape<L>) -> EnvelopeState<L> {
    EnvelopeState {
        attack: shape.attack,
        decay: shape.decay,
        sustain: shape.sustain,
        release: shape.release,
        sample_rate: shape.sample_rate,
        silence: shape.silence,
        full: shape.full,
        sustains: shape.sustains,
        phase: EnvelopePhase::Idle,
        level: shape.silence,
        release_start_level: shape.silence,
    }
}

impl<L: Copy> AdsrEnvelope<L> {
    /// An idle envelope of the given shape.
    pub fn new(shape: EnvelopeShape<L>) -> (envelope: AdsrEnvelope<L>)
        ensures
            envelope@ == idle_envelope(shape),
    {
        AdsrEnvelope {
            attack: shape.attack,
            decay: shape.decay,
            sustain: shape.sustain,
            release: shape.release,
            sample_rate: shape.sample_rate,
            silence: shape.silence,
            full: shape.full,
            sustains: shape.sustains,
            phase: EnvelopePhase::Idle,
            level: shape.silence,
            release_start_level: shape.silence,
        }
    }

    /// Note on: start the attack.
    pub fn trigger(&mut self)
        ensures
            final(self)@ == triggered(old(self)@),
    {
        self.phase = EnvelopePhase::Attack;
        self.level = self.silence;
    }

    /// Note off: start the release.
    pub fn release(&mut self)
        ensures
            final(self)@ == released(old(self)@),
    {
        if self.phase != EnvelopePhase::Idle {
            self.release_start_level = self.level;
            self.phase = EnvelopePhase::Release;
        }
    }

    /// Is the envelope idle (finished)?
    pub fn is_idle(&self) -> (idle: bool)
        ensures
            idle == (self@.phase is Idle),
    {
        self.phase == EnvelopePhase::Idle
    }

    /// Has the envelope rung out?
    pub fn is_rung_out(&self) -> (out: bool)
        ensures
            out == rung_out(self@),
    {
        self.phase == EnvelopePhase::Idle || (self.phase == EnvelopePhase::Sustain && !self.sustains)
    }

    /// One sample further on the way `from` one level `to` another that takes `time`: whether
    /// it lasts, and the level.
    fn glide<Las: Fn(L) -> bool, Gli: Fn(L, L, L, L, L) -> L, Leq: Fn(L, L) -> bool>(
        &self,
        time: L,
        from: L,
        to: L,
        ops: &RampArithmetic<Las, Gli, Leq>,
    ) -> (step: (bool, L))
        requires
            ramp_total::<L, Las, Gli, Leq>(*ops),
        ensures
            forall|reached: bool| #[trigger]
                glides(
                    self@,
                    ramp_relation(*ops),
                    time,
                    from,
                    to,
                    Ramp { lasts: step.0, level: step.1, reached },
                ),
    {
        let lasts = (ops.lasts)(time);
        if lasts {
            (lasts, (ops.glide)(self.level, time, self.sample_rate, from, to))
        } else {
            (lasts, to)
        }
    }

    /// The next step of the segment that the envelope is in.
    fn ramp<Las: Fn(L) -> bool, Gli: Fn(L, L, L, L, L) -> L, Leq: Fn(L, L) -> bool>(
        &self,
        ops: &RampArithmetic<Las, Gli, Leq>,
    ) -> (ramp: Ramp<L>)
        requires
            ramp_total::<L, Las, Gli, Leq>(*ops),
        ensures
            is_ramp(self@, ramp_relation(*ops), ramp),
    {
        match self.phase {
            EnvelopePhase::Attack => {
                let (lasts, level) = self.glide(self.attack, self.silence, self.full, ops);
                Ramp { lasts, level, reached: (ops.le)(self.full, level) }
            },
            EnvelopePhase::Decay => {
                let (lasts, level) = self.glide(self.decay, self.full, self.sustain, ops);
                Ramp { lasts, level, reached: (ops.le)(level, self.sustain) }
            },
            EnvelopePhase::Release => {
                let (lasts, level) = self.glide(
                    self.release,
                    self.release_start_level,
                    self.silence,
                    ops,
                );
                Ramp { lasts, level, reached: (ops.le)(level, self.silence) }
            },
            EnvelopePhase::Idle | EnvelopePhase::Sustain => Ramp {
                lasts: false,
                level: self.level,
                reached: false,
            },
        }
    }

    /// Advance the envelope by one sample and return the level.
    pub fn process<Las: Fn(L) -> bool, Gli: Fn(L, L, L, L, L) -> L, Leq: Fn(L, L) -> bool>(
        &mut self,
        ops: &RampArithmetic<Las, Gli, Leq>,
    ) -> (level: L)
        requires
            ramp_total::<L, Las, Gli, Leq>(*ops),
        ensures
            advances(old(self)@, ramp_relation(*ops), final(self)@),
            level == final(self)@.level,
    {
        let ramp = self.ramp(ops);
        match self.phase {
            EnvelopePhase::Idle => {
                self.level = self.silence;
            },
            EnvelopePhase::Attack => {
                self.level = ramp.level;
                if ramp.reached {
                    self.level = self.full;
                    self.phase = EnvelopePhase::Decay;
                }
            },
            EnvelopePhase::Decay => {
                self.level = ramp.level;
                if ramp.reached {
                    self.level = self.sustain;
                    self.phase = EnvelopePhase::Sustain;
                }
            },
            EnvelopePhase::Sustain => {
                self.level = self.sustain;
            },
            EnvelopePhase::Release => {
                self.level = ramp.level;
                if ramp.reached {
                    self.level = self.silence;
                    self.phase = EnvelopePhase::Idle;
                }
            },
        }
        assert(is_ramp(old(self)@, ramp_relation(*ops), ramp));
        self.level
    }

    /// The segment that the envelope is in.
    pub fn phase(&self) -> (phase: EnvelopePhase)
        ensures
            phase == self@.phase,
    {
        self.phase
    }

    /// The level reached.
    pub fn level(&self) -> (level: L)
        ensures
            level == self@.level,
    {
        self.level
    }

    /// The level that the release started from.
    pub fn release_start_level(&self) -> (level: L)
        ensures
            level == self@.release_start_level,
    {
        self.release_start_level
    }

    /// The times, levels and rate that the envelope was made with.
    pub fn shape(&self) -> (shape: EnvelopeShape<L>)
        ensures
            shape == shape_of(self@),
    {
        EnvelopeShape {
            attack: self.attack,
            decay: self.decay,
            sustain: self.sustain,
            release: self.release,
            sample_rate: self.sample_rate,
            silence: self.silence,
            full: self.full,
            sustains: self.sustains,
        }
    }
}

/// The shape of an envelope.
pub open spec fn shape_of<L>(e: EnvelopeState<L>) -> EnvelopeShape<L> {
    EnvelopeShape {
        attack: e.attack,
        decay: e.decay,
        sustain: e.sustain,
        release: e.release,
        sample_rate: e.sample_rate,
        silence: e.silence,
        full: e.full,
        sustains: e.sustains,
    }
}

/// The envelope of an instrument: times in microseconds, the sustain level in millionths of
/// the full level.
#[derive(Debug, Clone, Copy, PartialEq, Eq, Structural)]
pub struct EnvelopePreset {
    pub attack_us: u32,
    pub decay_us: u32,
    pub sustain_ppm: u32,
    pub release_us: u32,
}

impl EnvelopePreset {
    /// Is the sustain level above silence?
    pub fn sustains(&self) -> (yes: bool)
        ensures
            yes == (self.sustain_ppm > 0),
    {
        self.sustain_ppm > 0
    }

    /// Piano: fast attack, long decay.
    pub fn piano() -> (preset: EnvelopePreset)
        ensures
            preset == (EnvelopePreset {
                attack_us: 5_000,
                decay_us: 300_000,
                sustain_ppm: 1_000,
                release_us: 400_000,
            }),
    {
        EnvelopePreset {
            attack_us: 5_000,
            decay_us: 300_000,
            sustain_ppm: 1_000,
            release_us: 400_000,
        }
    }

    /// Bass: medium attack, medium decay.
    pub fn bass() -> (preset: EnvelopePreset)
        ensures
            preset == (EnvelopePreset {
                attack_us: 10_000,
                decay_us: 150_000,
                sustain_ppm: 600_000,
                release_us: 200_000,
            }),
    {
        EnvelopePreset {
            attack_us: 10_000,
            decay_us: 150_000,
            sustain_ppm: 600_000,
            release_us: 200_000,
        }
    }

    /// Strings: slow attack, sustained.
    pub fn strings() -> (preset: EnvelopePreset)
        ensures
            preset == (EnvelopePreset {
                attack_us: 150_000,
                decay_us: 100_000,
                sustain_ppm: 850_000,
                release_us: 500_000,
            }),
    {
        EnvelopePreset {
            attack_us: 150_000,
            decay_us: 100_000,
            sustain_ppm: 850_000,
            release_us: 500_000,
        }
    }

    /// Guitar: very fast attack, a decay to silence.
    pub fn guitar() -> (preset: EnvelopePreset)
        ensures
            preset == (EnvelopePreset {
                attack_us: 2_000,
                decay_us: 400_000,
                sustain_ppm: 0,
                release_us: 300_000,
            }),
    {
        EnvelopePreset {
            attack_us: 2_000,
            decay_us: 400_000,
            sustain_ppm: 0,
            release_us: 300_000,
        }
    }
}

/// The key of a pitched voice: the note that was struck last, and the envelope that it
/// drives.
#[derive(Debug, Clone, Copy)]
pub struct VoiceGate<L> {
    note: Option<u8>,
    envelope: AdsrEnvelope<L>,
}

impl<L> VoiceGate<L> {
    /// The note struck last.
    pub closed spec fn note(&self) -> Option<u8> {
        self.note
    }

    /// The envelope.
    pub closed spec fn env(&self) -> EnvelopeState<L> {
        self.envelope@
    }
}

impl<L: Copy> VoiceGate<L> {
    /// A key that was never struck.
    pub fn new(shape: EnvelopeShape<L>) -> (gate: VoiceGate<L>)
        ensures
            gate.note() is None,
            gate.env() == idle_envelope(shape),
    {
        VoiceGate { note: None, envelope: AdsrEnvelope::new(shape) }
    }

    /// Strike the key.
    pub fn note_on(&mut self, note: u8)
        ensures
            final(self).note() == Some(note),
            final(self).env() == triggered(old(self).env()),
    {
        self.note = Some(note);
        self.envelope.trigger();
    }

    /// Let go of the key: the release starts, unless the voice has rung out.
    pub fn note_off(&mut self)
        ensures
            final(self).note() == old(self).note(),
            final(self).env() == let_go(old(self).env()),
    {
        if !self.envelope.is_rung_out() {
            self.envelope.release();
        }
    }

    /// Advance the envelope by one sample and return the level.
    pub fn process<Las: Fn(L) -> bool, Gli: Fn(L, L, L, L, L) -> L, Leq: Fn(L, L) -> bool>(
        &mut self,
        ops: &RampArithmetic<Las, Gli, Leq>,
    ) -> (level: L)
        requires
            ramp_total::<L, Las, Gli, Leq>(*ops),
        ensures
            final(self).note() == old(self).note(),
            advances(old(self).env(), ramp_relation(*ops), final(self).env()),
            level == final(self).env().level,
    {
        self.envelope.process(ops)
    }

    /// Does the voice still produce sound?
    pub fn is_active(&self) -> (active: bool)
        ensures
            active == !rung_out(self.env()),
    {
        !self.envelope.is_rung_out()
    }

    /// The note that sounds, or `None` if the voice has rung out.
    pub fn current_note(&self) -> (note: Option<u8>)
        ensures
            note == (if rung_out(self.env()) {
                None
            } else {
                self.note()
            }),
    {
        if self.envelope.is_rung_out() {
            None
        } else {
            self.note
        }
    }

    /// The envelope.
    pub fn envelope(&self) -> (envelope: AdsrEnvelope<L>)
        ensures
            envelope@ == self.env(),
    {
        self.envelope
    }
}

/// The envelope after a number of samples, with the ramp results of each.
pub open spec fn run<L>(e: EnvelopeState<L>, ramped: Seq<L>, reached: Seq<bool>) -> EnvelopeState<L>
    decreases ramped.len(),
{
    if ramped.len() == 0 {
        e
    } else {
        processed(
            run(e, ramped.drop_last(), reached.drop_last()),
            ramped.last(),
            reached.last(),
        )
    }
}

/// An idle envelope stays idle until it is triggered, and every level that it gives is
/// silence.
pub proof fn law_idle_stays_silent<L>(e: EnvelopeState<L>, ramped: Seq<L>, reached: Seq<bool>)
    requires
        e.phase is Idle,
        ramped.len() == reached.len(),
    ensures
        run(e, ramped, reached) == (if ramped.len() == 0 {
            e
        } else {
            EnvelopeState { level: e.silence, ..e }
        }),
        run(e, ramped, reached).phase is Idle,
    decreases ramped.len(),
{
    if ramped.len() > 0 {
        law_idle_stays_silent(e, ramped.drop_last(), reached.drop_last());
    }
}

/// A note-on starts an attack from silence, whatever the envelope was doing.
pub proof fn law_trigger_restarts<L>(e: EnvelopeState<L>)
    ensures
        triggered(e).phase is Attack,
        triggered(e).level == e.silence,
{
}

/// A triggered envelope whose ramps reach their ends passes through decay and sustain, at
/// the full and the sustain level, and holds the sustain level until the release.
pub proof fn law_attack_decay_sustain<L>(
    e: EnvelopeState<L>,
    a: L,
    d: L,
    ramped: Seq<L>,
    reached: Seq<bool>,
)
    requires
        ramped.len() == reached.len(),
    ensures
        ({
            let decaying = processed(triggered(e), a, true);
            let sustained = processed(decaying, d, true);
            let held = run(sustained, ramped, reached);
            &&& decaying.phase is Decay
            &&& decaying.level == e.full
            &&& sustained.phase is Sustain
            &&& sustained.level == e.sustain
            &&& held == sustained
        }),
    decreases ramped.len(),
{
    if ramped.len() > 0 {
        law_attack_decay_sustain(e, a, d, ramped.drop_last(), reached.drop_last());
    }
}

/// A released envelope ends idle and silent when its ramp reaches silence, and from no
/// other segment does an envelope become idle.
pub proof fn law_only_release_ends<L>(e: EnvelopeState<L>, ramped: L, reached: bool)
    requires
        !(e.phase is Idle),
    ensures
        processed(e, ramped, reached).phase is Idle <==> e.phase is Release && reached,
        processed(e, ramped, reached).phase is Idle ==> processed(e, ramped, reached).level
            == e.silence,
        released(e).phase is Release,
        released(e).release_start_level == e.level,
{
}

/// What can be done with an envelope.
pub enum EnvelopeStep<L> {
    Trigger,
    Release,
    /// One sample, with the step of the ramp.
    Process { ramp: Ramp<L> },
}

/// The envelope after one step.
pub open spec fn stepped<L>(e: EnvelopeState<L>, step: EnvelopeStep<L>) -> EnvelopeState<L> {
    match step {
        EnvelopeStep::Trigger => triggered(e),
        EnvelopeStep::Release => released(e),
        EnvelopeStep::Process { ramp } => processed(e, ramp.level, ramp.reached),
    }
}

/// The envelope after a number of steps, in any order.
pub open spec fn walked<L>(e: EnvelopeState<L>, steps: Seq<EnvelopeStep<L>>) -> EnvelopeState<L>
    decreases steps.len(),
{
    if steps.len() == 0 {
        e
    } else {
        stepped(walked(e, steps.drop_last()), steps.last())
    }
}

/// Each sample among the steps takes the next step of the ramp that the envelope is on.
pub open spec fn ramps_along<L>(
    e: EnvelopeState<L>,
    steps: Seq<EnvelopeStep<L>>,
    ops: RampRelation<L>,
) -> bool
    decreases steps.len(),
{
    steps.len() > 0 ==> {
        &&& ramps_along(e, steps.drop_last(), ops)
        &&& steps.last() matches EnvelopeStep::Process { ramp } ==> is_ramp(
            walked(e, steps.drop_last()),
            ops,
            ramp,
        )
    }
}

/// However an envelope is triggered, released and processed, its level is the level that it
/// started from, the silence, full or sustain level, or the result of a ramp that had not
/// reached its end: it stays in every range that holds these.
pub proof fn law_level_stays_in_range<L>(
    e: EnvelopeState<L>,
    steps: Seq<EnvelopeStep<L>>,
    range: spec_fn(L) -> bool,
)
    requires
        range(e.level),
        range(e.silence),
        range(e.full),
        range(e.sustain),
        forall|i: int|
            0 <= i < steps.len() ==> ((#[trigger] steps[i]) matches EnvelopeStep::Process { ramp }
                ==> ramp.reached || range(ramp.level)),
    ensures
        range(walked(e, steps).level),
        shape_of(walked(e, steps)) == shape_of(e),
    decreases steps.len(),
{
    if steps.len() > 0 {
        let init = steps.drop_last();
        assert forall|i: int| 0 <= i < init.len() implies ((#[trigger] init[i]) matches EnvelopeStep::Process {
            ramp,
        } ==> ramp.reached || range(ramp.level)) by {
            assert(init[i] == steps[i]);
        }
        law_level_stays_in_range(e, init, range);
        assert(steps.last() == steps[steps.len() - 1]);
    }
}

/// What the ramps need of the arithmetic so that they do not leave the levels between silence
/// and full. `number` says which levels are numbers, and `le` is their order: it is total and
/// transitive, the arithmetic compares by it, and a glide on a segment of the envelope goes
/// towards the level that it leads to.
pub open spec fn ramps_are_monotone<L>(
    shape: EnvelopeShape<L>,
    ops: RampRelation<L>,
    number: spec_fn(L) -> bool,
    le: spec_fn(L, L) -> bool,
) -> bool {
    &&& number(shape.silence)
    &&& number(shape.full)
    &&& number(shape.sustain)
    &&& le(shape.silence, shape.sustain)
    &&& le(shape.sustain, shape.full)
    &&& forall|a: L, b: L| #![trigger le(a, b)] number(a) && number(b) ==> le(a, b) || le(b, a)
    &&& forall|a: L, b: L, c: L|
        number(a) && number(b) && number(c) && #[trigger] le(a, b) && #[trigger] le(b, c) ==> le(a, c)
    &&& forall|a: L, b: L, r: bool|
        number(a) && number(b) && #[trigger] (ops.le)(a, b, r) ==> r == le(a, b)
    &&& forall|level: L, time: L, from: L, to: L, x: L|
        {
            &&& time == shape.attack || time == shape.decay || time == shape.release
            &&& (ops.lasts)(time, true)
            &&& number(level)
            &&& number(from)
            &&& number(to)
            &&& #[trigger] (ops.glide)(level, time, shape.sample_rate, from, to, x)
        } ==> {
            &&& number(x)
            &&& le(from, to) ==> le(level, x)
            &&& le(to, from) ==> le(x, level)
        }
}

/// Is `x` a number between silence and full?
pub open spec fn in_bounds<L>(
    shape: EnvelopeShape<L>,
    number: spec_fn(L) -> bool,
    le: spec_fn(L, L) -> bool,
    x: L,
) -> bool {
    number(x) && le(shape.silence, x) && le(x, shape.full)
}

/// Every level lies between silence and full, after any triggers, releases and samples, as
/// long as the ramps are monotone.
pub proof fn law_level_is_between_silence_and_full<L>(
    shape: EnvelopeShape<L>,
    steps: Seq<EnvelopeStep<L>>,
    ops: RampRelation<L>,
    number: spec_fn(L) -> bool,
    le: spec_fn(L, L) -> bool,
)
    requires
        ramps_are_monotone(shape, ops, number, le),
        ramps_along(idle_envelope(shape), steps, ops),
    ensures
        in_bounds(shape, number, le, walked(idle_envelope(shape), steps).level),
        in_bounds(shape, number, le, walked(idle_envelope(shape), steps).release_start_level),
        shape_of(walked(idle_envelope(shape), steps)) == shape,
    decreases steps.len(),
{
    assert(le(shape.silence, shape.silence));
    assert(le(shape.full, shape.full));
    if steps.len() > 0 {
        let e = walked(idle_envelope(shape), steps.drop_last());
        law_level_is_between_silence_and_full(shape, steps.drop_last(), ops, number, le);
        if let EnvelopeStep::Process { ramp } = steps.last() {
            assert(is_ramp(e, ops, ramp));
            lemma_ramp_in_bounds(shape, e, ops, number, le, ramp);
        }
    }
}

/// The next level of an envelope that is within its bounds is, too.
proof fn lemma_ramp_in_bounds<L>(
    shape: EnvelopeShape<L>,
    e: EnvelopeState<L>,
    ops: RampRelation<L>,
    number: spec_fn(L) -> bool,
    le: spec_fn(L, L) -> bool,
    ramp: Ramp<L>,
)
    requires
        ramps_are_monotone(shape, ops, number, le),
        shape_of(e) == shape,
        in_bounds(shape, number, le, e.level),
        in_bounds(shape, number, le, e.release_start_level),
        is_ramp(e, ops, ramp),
    ensures
        in_bounds(shape, number, le, processed(e, ramp.level, ramp.reached).level),
{
    assert(le(shape.silence, shape.silence));
    assert(le(shape.full, shape.full));
    match e.phase {
        EnvelopePhase::Attack => {
            assert(le(shape.silence, shape.full));
            if ramp.lasts {
                assert((ops.glide)(
                    e.level,
                    shape.attack,
                    shape.sample_rate,
                    shape.silence,
                    shape.full,
                    ramp.level,
                ));
            }
            assert(le(shape.full, ramp.level) || le(ramp.level, shape.full));
        },
        EnvelopePhase::Decay => {
            if ramp.lasts {
                assert((ops.glide)(
                    e.level,
                    shape.decay,
                    shape.sample_rate,
                    shape.full,
                    shape.sustain,
                    ramp.level,
                ));
            }
            assert(le(ramp.level, shape.sustain) || le(shape.sustain, ramp.level));
        },
        EnvelopePhase::Release => {
            if ramp.lasts {
                assert((ops.glide)(
                    e.level,
                    shape.release,
                    shape.sample_rate,
                    e.release_start_level,
                    shape.silence,
                    ramp.level,
                ));
            }
            assert(le(ramp.level, shape.silence) || le(shape.silence, ramp.level));
        },
        EnvelopePhase::Idle | EnvelopePhase::Sustain => {},
    }
}

/// A voice that has rung out is silent and stays so, whatever is let go and however many
/// samples go by, until it is struck again.
pub proof fn law_rung_out_stays_silent<L>(e: EnvelopeState<L>, ramped: L, reached: bool)
    requires
        rung_out(e),
    ensures
        rung_out(let_go(e)),
        rung_out(processed(e, ramped, reached)),
        processed(e, ramped, reached).level == (if e.phase is Idle {
            e.silence
        } else {
            e.sustain
        }),
        !rung_out(triggered(e)),
{
}

/// The samples follow each other: each step is the next one of the ramp that the envelope is on
/// after the steps before it.
pub open spec fn ramps_follow<L>(e: EnvelopeState<L>, ops: RampRelation<L>, ramps: Seq<Ramp<L>>) -> bool {
    forall|i: int|
        0 <= i < ramps.len() ==> is_ramp(glided(e, ramps.take(i)), ops, #[trigger] ramps[i])
}

/// The envelope after one sample for each of `ramps`.
pub open spec fn glided<L>(e: EnvelopeState<L>, ramps: Seq<Ramp<L>>) -> EnvelopeState<L>
    decreases ramps.len(),
{
    if ramps.len() == 0 {
        e
    } else {
        processed(glided(e, ramps.drop_last()), ramps.last().level, ramps.last().reached)
    }
}

/// A segment goes its way in even steps: until it reaches its end, each sample moves the level by
/// the step of the segment, which depends on the time of the segment, the sample rate, and the
/// levels that it leads from and to, and on nothing else. These are silence and full for the
/// attack, full and the sustain level for the decay, and for the release the level at which it
/// started and silence.
pub proof fn law_segment_goes_in_even_steps<L>(
    e: EnvelopeState<L>,
    ops: RampRelation<L>,
    value: spec_fn(L) -> int,
    step: spec_fn(L, L, L, L) -> int,
    ramps: Seq<Ramp<L>>,
)
    requires
        ramps_follow(e, ops, ramps),
        forall|i: int| 0 <= i < ramps.len() ==> !(#[trigger] ramps[i]).reached,
        forall|time: L, lasts: bool| #[trigger] (ops.lasts)(time, lasts) ==> lasts,
        forall|level: L, time: L, rate: L, from: L, to: L, x: L| #[trigger]
            (ops.glide)(level, time, rate, from, to, x) ==> value(x) == value(level) + step(
                time,
                rate,
                from,
                to,
            ),
    ensures
        ({
            let f = glided(e, ramps);
            let n = ramps.len();
            &&& f.phase == e.phase
            &&& shape_of(f) == shape_of(e)
            &&& f.release_start_level == e.release_start_level
            &&& e.phase is Attack ==> value(f.level) == value(e.level) + n * step(
                e.attack,
                e.sample_rate,
                e.silence,
                e.full,
            )
            &&& e.phase is Decay ==> value(f.level) == value(e.level) + n * step(
                e.decay,
                e.sample_rate,
                e.full,
                e.sustain,
            )
            &&& e.phase is Release ==> value(f.level) == value(e.level) + n * step(
                e.release,
                e.sample_rate,
                e.release_start_level,
                e.silence,
            )
            &&& e.phase is Sustain && n > 0 ==> f.level == e.sustain
            &&& e.phase is Idle && n > 0 ==> f.level == e.silence
        }),
    decreases ramps.len(),
{
    if ramps.len() > 0 {
        let n = ramps.len() - 1;
        let init = ramps.drop_last();
        assert forall|i: int| 0 <= i < init.len() implies is_ramp(
            glided(e, init.take(i)),
            ops,
            #[trigger] init[i],
        ) && !init[i].reached by {
            assert(init[i] == ramps[i]);
            assert(init.take(i) =~= ramps.take(i));
        }
        law_segment_goes_in_even_steps(e, ops, value, step, init);
        assert(ramps.take(n) =~= init);
        assert(is_ramp(glided(e, init), ops, ramps[n]));
        assert(!ramps[n].reached);
        lemma_one_more(n, step(e.attack, e.sample_rate, e.silence, e.full));
        lemma_one_more(n, step(e.decay, e.sample_rate, e.full, e.sustain));
        lemma_one_more(n, step(e.release, e.sample_rate, e.release_start_level, e.silence));
    }
}

proof fn lemma_one_more(n: int, step: int)
    ensures
        (n + 1) * step == n * step + step,
{
    assert((n + 1) * step == n * step + step) by (nonlinear_arith);
}

/// A segment ends where it leads to, and exactly when the ramp is there: the attack with full,
/// the decay with the sustain level, the release with silence. One that takes no time ends with
/// its first sample.
pub proof fn law_segment_ends_where_it_leads<L>(
    e: EnvelopeState<L>,
    ops: RampRelation<L>,
    f: EnvelopeState<L>,
    lasts: spec_fn(L) -> bool,
    glide: spec_fn(L, L, L, L, L) -> L,
    le: spec_fn(L, L) -> bool,
)
    requires
        advances(e, ops, f),
        forall|t: L, r: bool| #[trigger] (ops.lasts)(t, r) ==> r == lasts(t),
        forall|l: L, t: L, rate: L, from: L, to: L, x: L| #[trigger]
            (ops.glide)(l, t, rate, from, to, x) ==> x == glide(l, t, rate, from, to),
        forall|a: L, b: L, r: bool| #[trigger] (ops.le)(a, b, r) ==> r == le(a, b),
        forall|a: L| #[trigger] le(a, a),
    ensures
        shape_of(f) == shape_of(e),
        f.release_start_level == e.release_start_level,
        e.phase is Attack ==> {
            let x = glide(e.level, e.attack, e.sample_rate, e.silence, e.full);
            let ends = !lasts(e.attack) || le(e.full, x);
            &&& ends ==> f.phase is Decay && f.level == e.full
            &&& !ends ==> f.phase is Attack && f.level == x
        },
        e.phase is Decay ==> {
            let x = glide(e.level, e.decay, e.sample_rate, e.full, e.sustain);
            let ends = !lasts(e.decay) || le(x, e.sustain);
            &&& ends ==> f.phase is Sustain && f.level == e.sustain
            &&& !ends ==> f.phase is Decay && f.level == x
        },
        e.phase is Release ==> {
            let x = glide(e.level, e.release, e.sample_rate, e.release_start_level, e.silence);
            let ends = !lasts(e.release) || le(x, e.silence);
            &&& ends ==> f.phase is Idle && f.level == e.silence
            &&& !ends ==> f.phase is Release && f.level == x
        },
        e.phase is Sustain ==> f.phase is Sustain && f.level == e.sustain,
        e.phase is Idle ==> f.phase is Idle && f.level == e.silence,
{
    let ramp = choose|ramp: Ramp<L>| #[trigger]
        is_ramp(e, ops, ramp) && f == processed(e, ramp.level, ramp.reached);
    assert(is_ramp(e, ops, ramp));
    assert(le(e.full, e.full) && le(e.sustain, e.sustain) && le(e.silence, e.silence));
}

/// Pressing and letting go of a key: a press keeps the shape and what the last release started
/// from; letting go keeps the level, so that the release starts from where the sound is, and
/// does nothing to an envelope that is idle or that has rung out. An envelope has rung out
/// exactly if it is idle or holds a sustain level of silence.
pub proof fn law_key_press_and_release<L>(e: EnvelopeState<L>)
    ensures
        shape_of(triggered(e)) == shape_of(e),
        triggered(e).release_start_level == e.release_start_level,
        shape_of(released(e)) == shape_of(e),
        released(e).level == e.level,
        e.phase is Idle ==> released(e) == e,
        !(e.phase is Idle) ==> released(e).phase is Release && released(e).release_start_level
            == e.level,
        e.phase is Idle ==> rung_out(e),
        e.phase is Sustain ==> rung_out(e) == !e.sustains,
        e.phase is Attack || e.phase is Decay || e.phase is Release ==> !rung_out(e),
        rung_out(e) ==> let_go(e) == e,
        !rung_out(e) ==> let_go(e) == released(e),
{
}

/// A key that was struck plays its note, at first from silence, and letting go of it right after
/// keeps the note and starts the release.
pub proof fn law_struck_key_plays<L: Copy>(
    striking: &mut VoiceGate<L>,
    note: u8,
    playing: Option<u8>,
    active: bool,
    releasing: &mut VoiceGate<L>,
    held: Option<u8>,
)
    requires
        call_ensures(VoiceGate::<L>::note_on, (striking, note), ()),
        call_ensures(VoiceGate::<L>::current_note, (&*final(striking),), playing),
        call_ensures(VoiceGate::<L>::is_active, (&*final(striking),), active),
        *old(releasing) == *final(striking),
        call_ensures(VoiceGate::<L>::note_off, (releasing,), ()),
        call_ensures(VoiceGate::<L>::current_note, (&*final(releasing),), held),
    ensures
        playing == Some(note),
        active,
        final(striking).env().level == old(striking).env().silence,
        shape_of(final(striking).env()) == shape_of(old(striking).env()),
        held == Some(note),
        final(releasing).env().phase is Release,
        final(releasing).env().release_start_level == final(striking).env().level,
{
}

/// A voice is active exactly if it plays a note, once one was struck, and the level that a sample
/// gives is the level that the envelope then has.
pub proof fn law_active_voice_plays<
    L: Copy,
    Las: Fn(L) -> bool,
    Gli: Fn(L, L, L, L, L) -> L,
    Leq: Fn(L, L) -> bool,
>(
    gate: &mut VoiceGate<L>,
    ops: &RampArithmetic<Las, Gli, Leq>,
    level: L,
    active: bool,
    note: Option<u8>,
    envelope: AdsrEnvelope<L>,
)
    requires
        call_ensures(VoiceGate::<L>::process::<Las, Gli, Leq>, (gate, ops), level),
        call_ensures(VoiceGate::<L>::is_active, (&*final(gate),), active),
        call_ensures(VoiceGate::<L>::current_note, (&*final(gate),), note),
        call_ensures(VoiceGate::<L>::envelope, (&*final(gate),), envelope),
    ensures
        old(gate).note() is Some ==> (active <==> note is Some),
        note is Some ==> note == old(gate).note(),
        level == envelope@.level,
        advances(old(gate).env(), ramp_relation(*ops), envelope@),
{
}

} // verus!
