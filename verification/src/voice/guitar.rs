//! Guitar voice: the delay line of Karplus-Strong string synthesis.
//!
//! A pluck fills the line with noise. Each sample reads the line and feeds a blend of the
//! current and the next tap back into it; the length of the line sets the pitch.

use vstd::prelude::*;
use vstd::arithmetic::div_mod::{
    lemma_add_mod_noop, lemma_mod_add_multiples_vanish, lemma_mod_twice, lemma_small_mod,
};

use super::noise::next_noise;
use super::{AdsrEnvelope, EnvelopeShape, Ramp, RampArithmetic};

verus! {

/// Maximum delay line length, for low notes at 44100 Hz.
pub const MAX_DELAY: usize = 4096;

/// Minimum delay line length of a plucked string.
pub const MIN_DELAY: usize = 2;

/// The noise generator of a new string starts from this word.
pub const PLUCK_SEED: u32 = 12345;

/// Guitar voice with samples of type `S`.
#[derive(Debug)]
pub struct GuitarVoice<S> {
    note: Option<u8>,
    delay_line: Vec<S>,
    /// The tap that is read next and then written.
    position: usize,
    delay_length: usize,
    noise_state: u32,
    envelope: AdsrEnvelope<S>,
}

/// The state of a guitar voice, as a mathematical value.
pub struct GuitarState<S> {
    /// The note plucked last.
    pub note: Option<u8>,
    /// The taps in use.
    pub line: Seq<S>,
    /// The tap that is read next.
    pub position: int,
    /// The noise word given last.
    pub noise_state: u32,
    pub envelope: super::EnvelopeState<S>,
}

/// The length of the delay line for a period of `period` samples.
pub open spec fn line_length(period: int) -> int {
    if period > MAX_DELAY {
        MAX_DELAY as int
    } else if period < MIN_DELAY {
        MIN_DELAY as int
    } else {
        period
    }
}

impl<S> View for GuitarVoice<S> {
    type V = GuitarState<S>;

    closed spec fn view(&self) -> GuitarState<S> {
        GuitarState {
            note: self.note,
            line: self.delay_line@.take(self.delay_length as int),
            position: self.position as int,
            noise_state: self.noise_state,
            envelope: self.envelope@,
        }
    }
}

/// The state of a string that was never plucked.
pub open spec fn unplucked<S>(shape: EnvelopeShape<S>) -> GuitarState<S> {
    GuitarState {
        note: None,
        line: Seq::empty(),
        position: 0,
        noise_state: PLUCK_SEED,
        envelope: super::idle_envelope(shape),
    }
}

/// From `before` to `after` one sample is taken off the string. The envelope advances by
/// `ramp`. A string that is `muted`, because its level is at most silence, or that was never
/// plucked, gives silence; else the tap at the position comes out, scaled by the level, and a
/// blend of it and the next tap is fed back in its place.
pub open spec fn vibrates<S>(
    before: GuitarState<S>,
    after: GuitarState<S>,
    ops: super::RampRelation<S>,
    blend: spec_fn(S, S, S) -> bool,
    scale: spec_fn(S, S, S) -> bool,
    ramp: Ramp<S>,
    muted: bool,
    sample: S,
) -> bool {
    let level = after.envelope.level;
    let line = before.line;
    let at = before.position;
    let next = (at + 1) % line.len() as int;
    &&& super::is_ramp(before.envelope, ops, ramp)
    &&& after.envelope == super::processed(before.envelope, ramp.level, ramp.reached)
    &&& (ops.le)(level, before.envelope.silence, muted)
    &&& if muted || line.len() == 0 {
        &&& sample == before.envelope.silence
        &&& after == (GuitarState { envelope: after.envelope, ..before })
    } else {
        &&& 0 <= at < line.len()
        &&& scale(line[at], level, sample)
        &&& blend(line[at], line[next], after.line[at])
        &&& after == (GuitarState {
            envelope: after.envelope,
            line: line.update(at, after.line[at]),
            position: next,
            ..before
        })
    }
}

impl<S> GuitarVoice<S> {
    #[verifier::type_invariant]
    spec fn well_formed(&self) -> bool {
        &&& self.delay_line@.len() == MAX_DELAY
        &&& self.delay_length == 0 || MIN_DELAY <= self.delay_length <= MAX_DELAY
        &&& self.position < self.delay_length || self.delay_length == 0
    }
}

impl<S: Copy> GuitarVoice<S> {
    /// A string that was never plucked.
    pub fn new(shape: EnvelopeShape<S>) -> (guitar: GuitarVoice<S>)
        ensures
            guitar@ == unplucked(shape),
    {
        let mut delay_line: Vec<S> = Vec::with_capacity(MAX_DELAY);
        for i in 0..MAX_DELAY
            invariant
                delay_line@.len() == i,
        {
            delay_line.push(shape.silence);
        }
        let guitar = GuitarVoice {
            note: None,
            delay_line,
            position: 0,
            delay_length: 0,
            noise_state: PLUCK_SEED,
            envelope: AdsrEnvelope::new(shape),
        };
        assert(guitar@.line =~= Seq::empty());
        guitar
    }

    /// Make the string as if it were never plucked, in the memory that it has.
    pub fn reset(&mut self)
        ensures
            final(self)@ == unplucked(super::shape_of(old(self)@.envelope)),
    {
        proof {
            use_type_invariant(&*self);
        }
        self.position = 0;
        self.delay_length = 0;
        self.note = None;
        self.noise_state = PLUCK_SEED;
        self.envelope = AdsrEnvelope::new(self.envelope.shape());
        assert(self@.line =~= Seq::empty());
    }

    /// Fill the delay line with noise. `shape` turns a noise word into a sample.
    fn excite<F: Fn(u32) -> S>(&mut self, shape: F)
        requires
            forall|word: u32| call_requires(shape, (word,)),
        ensures
            final(self)@.line.len() == old(self)@.line.len(),
            forall|i: int|
                0 <= i < final(self)@.line.len() ==> call_ensures(
                    shape,
                    (super::noise::noise_word(old(self)@.noise_state, (i + 1) as nat),),
                    #[trigger] final(self)@.line[i],
                ),
            final(self)@.position == 0,
            final(self)@.noise_state == super::noise::noise_word(
                old(self)@.noise_state,
                old(self)@.line.len(),
            ),
            final(self)@.note == old(self)@.note,
            final(self)@.envelope == old(self)@.envelope,
    {
        proof {
            use_type_invariant(&*self);
        }
        let n: usize = self.delay_length;
        let ghost seed = self.noise_state;
        for i in 0..n
            invariant
                forall|word: u32| call_requires(shape, (word,)),
                n == self.delay_length,
                n == old(self).delay_length,
                n <= MAX_DELAY,
                n == 0 || MIN_DELAY <= n,
                self.position < n || n == 0,
                self.delay_line@.len() == MAX_DELAY,
                self.note == old(self).note,
                self.envelope == old(self).envelope,
                self.noise_state == super::noise::noise_word(seed, i as nat),
                forall|j: int|
                    0 <= j < i ==> call_ensures(
                        shape,
                        (super::noise::noise_word(seed, (j + 1) as nat),),
                        #[trigger] self.delay_line@[j],
                    ),
        {
            self.noise_state = next_noise(self.noise_state);
            let tap = shape(self.noise_state);
            self.delay_line[i] = tap;
        }
        self.position = 0;
    }

    /// Pluck the string: a note whose period is `period` samples. `shape` turns a noise word
    /// into a sample.
    pub fn note_on<F: Fn(u32) -> S>(&mut self, note: u8, period: usize, shape: F)
        requires
            forall|word: u32| call_requires(shape, (word,)),
        ensures
            final(self)@.note == Some(note),
            final(self)@.line.len() == line_length(period as int),
            forall|i: int|
                0 <= i < final(self)@.line.len() ==> call_ensures(
                    shape,
                    (super::noise::noise_word(old(self)@.noise_state, (i + 1) as nat),),
                    #[trigger] final(self)@.line[i],
                ),
            final(self)@.position == 0,
            final(self)@.noise_state == super::noise::noise_word(
                old(self)@.noise_state,
                line_length(period as int) as nat,
            ),
            final(self)@.envelope == super::triggered(old(self)@.envelope),
    {
        proof {
            use_type_invariant(&*self);
        }
        self.note = Some(note);
        let mut delay_length: usize = period;
        if delay_length > MAX_DELAY {
            delay_length = MAX_DELAY;
        }
        if delay_length < MIN_DELAY {
            delay_length = MIN_DELAY;
        }
        self.position = 0;
        self.delay_length = delay_length;
        self.excite(shape);
        proof {
            use_type_invariant(&*self);
        }
        let mut envelope = self.envelope;
        envelope.trigger();
        self.envelope = envelope;
    }

    /// Let go of the string: the release starts, unless the string has rung out.
    pub fn note_off(&mut self)
        ensures
            final(self)@ == (GuitarState {
                envelope: super::let_go(old(self)@.envelope),
                ..old(self)@
            }),
    {
        proof {
            use_type_invariant(&*self);
        }
        let mut envelope = self.envelope;
        if !envelope.is_rung_out() {
            envelope.release();
        }
        self.envelope = envelope;
    }

    /// Take one sample off the string. `blend` turns the current and the next tap into the one
    /// that is fed back, and `scale` scales a tap by the level of the envelope.
    pub fn render_sample<
        Las: Fn(S) -> bool,
        Gli: Fn(S, S, S, S, S) -> S,
        Leq: Fn(S, S) -> bool,
        Ble: Fn(S, S) -> S,
        Sca: Fn(S, S) -> S,
    >(&mut self, ops: &RampArithmetic<Las, Gli, Leq>, blend: Ble, scale: Sca) -> (sample: S)
        requires
            super::ramp_total::<S, Las, Gli, Leq>(*ops),
            forall|a: S, b: S| call_requires(blend, (a, b)),
            forall|a: S, b: S| call_requires(scale, (a, b)),
        ensures
            exists|ramp: Ramp<S>, muted: bool|
                #[trigger] vibrates(
                    old(self)@,
                    final(self)@,
                    super::ramp_relation(*ops),
                    crate::relation::binary(blend),
                    crate::relation::binary(scale),
                    ramp,
                    muted,
                    sample,
                ),
    {
        proof {
            use_type_invariant(&*self);
        }
        let ghost before = self@;
        let mut envelope = self.envelope;
        let level = envelope.process(ops);
        let silence = envelope.shape().silence;
        self.envelope = envelope;
        let ghost ramp = choose|ramp: Ramp<S>|
            #[trigger] super::is_ramp(before.envelope, super::ramp_relation(*ops), ramp)
                && envelope@ == super::processed(before.envelope, ramp.level, ramp.reached);
        let muted = (ops.le)(level, silence);
        if muted || self.delay_length == 0 {
            assert(vibrates(
                before,
                self@,
                super::ramp_relation(*ops),
                crate::relation::binary(blend),
                crate::relation::binary(scale),
                ramp,
                muted,
                silence,
            ));
            return silence;
        }
        let ghost line = self@.line;
        let ghost at = self.position as int;
        let current = self.delay_line[self.position];
        let next = self.delay_line[(self.position + 1) % self.delay_length];
        let feedback = blend(current, next);
        self.delay_line[self.position] = feedback;
        self.position = (self.position + 1) % self.delay_length;
        let sample = scale(current, level);
        assert(self@.line =~= line.update(at, feedback));
        assert(vibrates(
            before,
            self@,
            super::ramp_relation(*ops),
            crate::relation::binary(blend),
            crate::relation::binary(scale),
            ramp,
            muted,
            sample,
        ));
        sample
    }

    /// Does the string still produce sound?
    pub fn is_active(&self) -> (active: bool)
        ensures
            active == !super::rung_out(self@.envelope),
    {
        !self.envelope.is_rung_out()
    }

    /// The note that sounds, or `None` if the string has rung out.
    pub fn current_note(&self) -> (note: Option<u8>)
        ensures
            note == (if super::rung_out(self@.envelope) {
                None
            } else {
                self@.note
            }),
    {
        if self.envelope.is_rung_out() {
            None
        } else {
            self.note
        }
    }

    /// The envelope.
    pub fn envelope(&self) -> (envelope: AdsrEnvelope<S>)
        ensures
            envelope@ == self@.envelope,
    {
        self.envelope
    }
}

/// The position of a string of `length` taps after `n` samples from `position` on.
pub open spec fn position_after(position: int, length: int, n: nat) -> int
    decreases n,
{
    if n == 0 {
        position
    } else {
        (position_after(position, length, (n - 1) as nat) + 1) % length
    }
}

/// The length of the line is the period of the string: the position comes back to the same
/// tap after that many samples.
pub proof fn law_length_is_period(position: int, length: int, n: nat)
    requires
        0 <= position < length,
    ensures
        position_after(position, length, n) == (position + n) % length,
        position_after(position, length, length as nat) == position,
    decreases n,
{
    lemma_position(position, length, n);
    lemma_position(position, length, length as nat);
    lemma_mod_add_multiples_vanish(position, length);
    lemma_small_mod(position as nat, length as nat);
}

proof fn lemma_position(position: int, length: int, n: nat)
    requires
        0 <= position < length,
    ensures
        position_after(position, length, n) == (position + n) % length,
    decreases n,
{
    if n == 0 {
        lemma_small_mod(position as nat, length as nat);
    } else {
        lemma_position(position, length, (n - 1) as nat);
        lemma_add_mod_noop(position + n - 1, 1, length);
        lemma_add_mod_noop((position + n - 1) % length, 1, length);
        lemma_mod_twice(position + n - 1, length);
    }
}

/// The line is as long as the period, but never shorter than two taps nor longer than 4096.
pub proof fn law_line_is_as_long_as_the_period(period: int)
    ensures
        2 <= line_length(period) <= 4096,
        2 <= period <= 4096 ==> line_length(period) == period,
        period < 2 ==> line_length(period) == 2,
        period > 4096 ==> line_length(period) == 4096,
{
}

/// A string of which samples are taken, none of them muted.
pub open spec fn rings_along<S>(
    states: Seq<GuitarState<S>>,
    ops: super::RampRelation<S>,
    blend: spec_fn(S, S, S) -> bool,
    scale: spec_fn(S, S, S) -> bool,
    ramps: Seq<Ramp<S>>,
    samples: Seq<S>,
) -> bool {
    &&& states.len() == samples.len() + 1
    &&& ramps.len() == samples.len()
    &&& forall|k: int|
        0 <= k < samples.len() ==> vibrates(
            states[k],
            states[k + 1],
            ops,
            blend,
            scale,
            ramps[k],
            false,
            #[trigger] samples[k],
        )
}

/// One period of a string reads every tap once, in order, and turns each into the blend of it
/// and the next one: the taps that were read are blended and the others are as they were. The
/// next one of the last tap is the first, which has been blended by then.
pub proof fn law_period_blends_every_tap<S>(
    states: Seq<GuitarState<S>>,
    ops: super::RampRelation<S>,
    blend: spec_fn(S, S, S) -> bool,
    scale: spec_fn(S, S, S) -> bool,
    ramps: Seq<Ramp<S>>,
    samples: Seq<S>,
    blended: spec_fn(S, S) -> S,
    scaled: spec_fn(S, S) -> S,
    k: int,
)
    requires
        rings_along(states, ops, blend, scale, ramps, samples),
        forall|a: S, b: S, r: S| #[trigger] blend(a, b, r) ==> r == blended(a, b),
        forall|a: S, b: S, r: S| #[trigger] scale(a, b, r) ==> r == scaled(a, b),
        states[0].line.len() >= 2,
        states[0].position == 0,
        0 <= k <= samples.len(),
        k <= states[0].line.len(),
    ensures
        ({
            let before = states[0].line;
            let now = states[k].line;
            let n = before.len() as int;
            &&& now.len() == n
            &&& states[k].position == (if k == n {
                0
            } else {
                k
            })
            &&& states[k].note == states[0].note
            &&& states[k].noise_state == states[0].noise_state
            &&& forall|i: int|
                0 <= i < k && i < n - 1 ==> #[trigger] now[i] == blended(before[i], before[i + 1])
            &&& k == n ==> now[n - 1] == blended(before[n - 1], blended(before[0], before[1]))
            &&& forall|i: int| k <= i < n ==> #[trigger] now[i] == before[i]
            &&& k < samples.len() && k < n ==> samples[k] == scaled(
                before[k],
                states[k + 1].envelope.level,
            )
        }),
    decreases k,
{
    let n = states[0].line.len() as int;
    if k > 0 {
        law_period_blends_every_tap(
            states,
            ops,
            blend,
            scale,
            ramps,
            samples,
            blended,
            scaled,
            k - 1,
        );
        assert(vibrates(
            states[k - 1],
            states[k],
            ops,
            blend,
            scale,
            ramps[k - 1],
            false,
            samples[k - 1],
        ));
        if k < n {
            lemma_small_mod(k as nat, n as nat);
        } else {
            vstd::arithmetic::div_mod::lemma_mod_self_0(n);
        }
    }
    if k < samples.len() && k < n {
        assert(vibrates(
            states[k],
            states[k + 1],
            ops,
            blend,
            scale,
            ramps[k],
            false,
            samples[k],
        ));
    }
}

/// A string gives silence exactly while its level is at most silence or while it has no taps,
/// and then only the envelope goes on.
pub proof fn law_muted_string_rests<S>(
    before: GuitarState<S>,
    after: GuitarState<S>,
    ops: super::RampRelation<S>,
    blend: spec_fn(S, S, S) -> bool,
    scale: spec_fn(S, S, S) -> bool,
    ramp: Ramp<S>,
    muted: bool,
    sample: S,
)
    requires
        vibrates(before, after, ops, blend, scale, ramp, muted, sample),
    ensures
        super::advances(before.envelope, ops, after.envelope),
        (ops.le)(after.envelope.level, before.envelope.silence, muted),
        muted || before.line.len() == 0 ==> {
            &&& sample == before.envelope.silence
            &&& after.line == before.line
            &&& after.position == before.position
        },
        after.note == before.note,
        after.noise_state == before.noise_state,
{
    assert(super::is_ramp(before.envelope, ops, ramp));
}

/// A string that was never plucked is silent and idle and has no taps, and its noise starts from
/// the same word as that of every other.
pub proof fn law_unplucked_string_is_silent<S>(shape: EnvelopeShape<S>)
    ensures
        unplucked(shape).note is None,
        unplucked(shape).line.len() == 0,
        unplucked(shape).noise_state == 12345,
        super::rung_out(unplucked(shape).envelope),
        unplucked(shape).envelope.level == shape.silence,
        super::shape_of(unplucked(shape).envelope) == shape,
{
}

/// A string that was plucked plays its note: its taps are filled with fresh noise, from the word
/// after the last one on, so that a second pluck goes on where the first one stopped.
pub proof fn law_plucks_go_on_with_the_noise<S: Copy, F: Fn(u32) -> S>(
    first: &mut GuitarVoice<S>,
    note: u8,
    period: usize,
    second: &mut GuitarVoice<S>,
    other_note: u8,
    other_period: usize,
    shape: F,
    sampled: spec_fn(u32) -> S,
    playing: Option<u8>,
    active: bool,
)
    requires
        call_ensures(GuitarVoice::<S>::note_on::<F>, (first, note, period, shape), ()),
        *old(second) == *final(first),
        call_ensures(GuitarVoice::<S>::note_on::<F>, (second, other_note, other_period, shape), ()),
        call_ensures(GuitarVoice::<S>::current_note, (&*final(second),), playing),
        call_ensures(GuitarVoice::<S>::is_active, (&*final(second),), active),
        forall|word: u32, s: S| #[trigger] call_ensures(shape, (word,), s) ==> s == sampled(word),
    ensures
        ({
            let seed = old(first)@.noise_state;
            let n = final(first)@.line.len();
            &&& 2 <= n <= 4096
            &&& 2 <= period <= 4096 ==> n == period
            &&& final(first)@.position == 0 && final(second)@.position == 0
            &&& forall|i: int|
                0 <= i < n ==> #[trigger] final(first)@.line[i] == sampled(
                    super::noise::noise_word(seed, (i + 1) as nat),
                )
            &&& forall|i: int|
                0 <= i < final(second)@.line.len() ==> #[trigger] final(second)@.line[i] == sampled(
                    super::noise::noise_word(seed, (n + i + 1) as nat),
                )
        }),
        playing == Some(other_note),
        active,
{
    let seed = old(first)@.noise_state;
    let n = final(first)@.line.len();
    assert forall|i: int| 0 <= i < final(second)@.line.len() implies #[trigger] final(second)@.line[i]
        == sampled(super::noise::noise_word(seed, (n + i + 1) as nat)) by {
        super::noise::law_noise_goes_on(seed, n, (i + 1) as nat);
        assert(call_ensures(
            shape,
            (super::noise::noise_word(old(second)@.noise_state, (i + 1) as nat),),
            final(second)@.line[i],
        ));
    }
}

} // verus!
