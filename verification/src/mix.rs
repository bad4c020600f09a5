//! The mix buffer: the samples of one chunk, in memory that is allocated once.

use vstd::prelude::*;

verus! {

/// The samples of one chunk.
#[derive(Debug)]
pub struct MixBuffer<S> {
    samples: Vec<S>,
    silence: S,
}

impl<S> View for MixBuffer<S> {
    type V = Seq<S>;

    closed spec fn view(&self) -> Seq<S> {
        self.samples@
    }
}

impl<S> MixBuffer<S> {
    /// The sample of silence.
    pub closed spec fn spec_silence(&self) -> S {
        self.silence
    }
}

impl<S: Copy> MixBuffer<S> {
    /// A silent buffer of `chunk_size` samples, which have to fit into one allocation.
    pub fn new(chunk_size: usize, silence: S) -> (buffer: MixBuffer<S>)
        requires
            crate::window::fits_memory::<S>(chunk_size as int),
        ensures
            buffer@ == Seq::new(chunk_size as nat, |i: int| silence),
            buffer.spec_silence() == silence,
    {
        let mut samples: Vec<S> = Vec::with_capacity(chunk_size);
        for i in 0..chunk_size
            invariant
                samples@ =~= Seq::new(i as nat, |j: int| silence),
        {
            samples.push(silence);
        }
        MixBuffer { samples, silence }
    }

    /// Make every sample silent, for the next chunk.
    pub fn clear(&mut self)
        ensures
            final(self)@ == Seq::new(old(self)@.len(), |i: int| old(self).spec_silence()),
            final(self).spec_silence() == old(self).spec_silence(),
    {
        let total: usize = self.samples.len();
        for i in 0..total
            invariant
                total == self.samples@.len(),
                total == old(self)@.len(),
                self.silence == old(self).silence,
                forall|j: int| 0 <= j < i ==> #[trigger] self.samples@[j] == self.silence,
        {
            self.samples[i] = self.silence;
        }
        assert(self@ =~= Seq::new(old(self)@.len(), |i: int| old(self).spec_silence()));
    }

    /// Mix the samples of a voice into the chunk. `sum` adds two samples.
    pub fn mix_in<A: Fn(S, S) -> S>(&mut self, voice: &[S], sum: A)
        requires
            voice@.len() == old(self)@.len(),
            forall|a: S, b: S| call_requires(sum, (a, b)),
        ensures
            final(self)@.len() == old(self)@.len(),
            forall|i: int|
                0 <= i < old(self)@.len() ==> call_ensures(
                    sum,
                    (old(self)@[i], voice@[i]),
                    #[trigger] final(self)@[i],
                ),
            final(self).spec_silence() == old(self).spec_silence(),
    {
        let total: usize = self.samples.len();
        for i in 0..total
            invariant
                total == self.samples@.len(),
                total == old(self)@.len(),
                total == voice@.len(),
                self.silence == old(self).silence,
                forall|a: S, b: S| call_requires(sum, (a, b)),
                forall|j: int|
                    0 <= j < i ==> call_ensures(
                        sum,
                        (old(self)@[j], voice@[j]),
                        #[trigger] self.samples@[j],
                    ),
                forall|j: int| i <= j < total ==> #[trigger] self.samples@[j] == old(self)@[j],
        {
            let mixed = sum(self.samples[i], voice[i]);
            self.samples[i] = mixed;
        }
    }

    /// The samples.
    pub fn samples(&self) -> (samples: &[S])
        ensures
            samples@ == self@,
    {
        self.samples.as_slice()
    }

    /// Finish the chunk: bring every sample to the gain and clip it. `amplify` multiplies a
    /// sample by the gain, and `clip` takes it back into range.
    pub fn finish<A: Fn(S, S) -> S, C: Fn(S) -> S>(&mut self, gain: S, amplify: A, clip: C)
        requires
            forall|a: S, b: S| call_requires(amplify, (a, b)),
            forall|a: S| call_requires(clip, (a,)),
        ensures
            final(self)@.len() == old(self)@.len(),
            forall|i: int|
                0 <= i < old(self)@.len() ==> is_finished(
                    old(self)@[i],
                    gain,
                    crate::relation::binary(amplify),
                    crate::relation::unary(clip),
                    #[trigger] final(self)@[i],
                ),
            final(self).spec_silence() == old(self).spec_silence(),
    {
        let total: usize = self.samples.len();
        for i in 0..total
            invariant
                total == self.samples@.len(),
                total == old(self)@.len(),
                self.silence == old(self).silence,
                forall|a: S, b: S| call_requires(amplify, (a, b)),
                forall|a: S| call_requires(clip, (a,)),
                forall|j: int|
                    0 <= j < i ==> is_finished(
                        old(self)@[j],
                        gain,
                        crate::relation::binary(amplify),
                        crate::relation::unary(clip),
                        #[trigger] self.samples@[j],
                    ),
                forall|j: int| i <= j < total ==> #[trigger] self.samples@[j] == old(self)@[j],
        {
            let amplified = amplify(self.samples[i], gain);
            let finished = clip(amplified);
            assert(crate::relation::binary(amplify)(old(self)@[i as int], gain, amplified));
            self.samples[i] = finished;
        }
    }
}

/// `finished` is the sample at the gain, clipped.
pub open spec fn is_finished<S>(
    sample: S,
    gain: S,
    amplify: spec_fn(S, S, S) -> bool,
    clip: spec_fn(S, S) -> bool,
    finished: S,
) -> bool {
    exists|amplified: S| #[trigger] amplify(sample, gain, amplified) && clip(amplified, finished)
}

/// Silence stays silence at any gain, where the arithmetic keeps it: a chunk into which nothing
/// was mixed comes out silent.
pub proof fn law_silence_stays_silent<S>(
    silence: S,
    gain: S,
    amplify: spec_fn(S, S, S) -> bool,
    clip: spec_fn(S, S) -> bool,
    finished: S,
)
    requires
        is_finished(silence, gain, amplify, clip, finished),
        forall|x: S| #[trigger] amplify(silence, gain, x) ==> x == silence,
        forall|x: S| #[trigger] clip(silence, x) ==> x == silence,
    ensures
        finished == silence,
{
}

/// A finished sample is the sample at the gain, taken back into range after that and not before.
pub proof fn law_finished_is_clipped_last<S>(
    sample: S,
    gain: S,
    amplify: spec_fn(S, S, S) -> bool,
    clip: spec_fn(S, S) -> bool,
    amplified: spec_fn(S, S) -> S,
    clipped: spec_fn(S) -> S,
    finished: S,
)
    requires
        is_finished(sample, gain, amplify, clip, finished),
        forall|a: S, b: S, r: S| #[trigger] amplify(a, b, r) ==> r == amplified(a, b),
        forall|a: S, r: S| #[trigger] clip(a, r) ==> r == clipped(a),
    ensures
        finished == clipped(amplified(sample, gain)),
{
}

/// Voices are mixed one on the other, sample by sample: what two voices leave is the sum of what
/// was there, the first and the second, and a cleared buffer starts from silence.
pub proof fn law_voices_add_up<S: Copy, A: Fn(S, S) -> S>(
    clearing: &mut MixBuffer<S>,
    mixing: &mut MixBuffer<S>,
    first: &[S],
    again: &mut MixBuffer<S>,
    second: &[S],
    sum: A,
    added: spec_fn(S, S) -> S,
)
    requires
        call_ensures(MixBuffer::<S>::clear, (clearing,), ()),
        *old(mixing) == *final(clearing),
        call_ensures(MixBuffer::<S>::mix_in::<A>, (mixing, first, sum), ()),
        *old(again) == *final(mixing),
        call_ensures(MixBuffer::<S>::mix_in::<A>, (again, second, sum), ()),
        forall|a: S, b: S, r: S| #[trigger] call_ensures(sum, (a, b), r) ==> r == added(a, b),
    ensures
        final(again)@.len() == old(clearing)@.len(),
        forall|i: int|
            0 <= i < old(clearing)@.len() ==> #[trigger] final(again)@[i] == added(
                added(old(clearing).spec_silence(), first@[i]),
                second@[i],
            ),
        final(again).spec_silence() == old(clearing).spec_silence(),
{
    assert forall|i: int| 0 <= i < old(clearing)@.len() implies #[trigger] final(again)@[i] == added(
        added(old(clearing).spec_silence(), first@[i]),
        second@[i],
    ) by {
        assert(call_ensures(sum, (old(mixing)@[i], first@[i]), final(mixing)@[i]));
        assert(call_ensures(sum, (old(again)@[i], second@[i]), final(again)@[i]));
    }
}

/// A chunk is finished sample by sample, each by the same gain, and keeps its length.
pub proof fn law_chunk_is_finished_at_one_gain<S: Copy, A: Fn(S, S) -> S, C: Fn(S) -> S>(
    buffer: &mut MixBuffer<S>,
    gain: S,
    amplify: A,
    clip: C,
    amplified: spec_fn(S, S) -> S,
    clipped: spec_fn(S) -> S,
)
    requires
        call_ensures(MixBuffer::<S>::finish::<A, C>, (buffer, gain, amplify, clip), ()),
        forall|a: S, b: S, r: S| #[trigger] call_ensures(amplify, (a, b), r) ==> r == amplified(a, b),
        forall|a: S, r: S| #[trigger] call_ensures(clip, (a,), r) ==> r == clipped(a),
    ensures
        final(buffer)@ == old(buffer)@.map_values(|x: S| clipped(amplified(x, gain))),
        final(buffer).spec_silence() == old(buffer).spec_silence(),
{
    assert forall|i: int| 0 <= i < old(buffer)@.len() implies #[trigger] final(buffer)@[i]
        == clipped(amplified(old(buffer)@[i], gain)) by {
        law_finished_is_clipped_last(
            old(buffer)@[i],
            gain,
            crate::relation::binary(amplify),
            crate::relation::unary(clip),
            amplified,
            clipped,
            final(buffer)@[i],
        );
    }
    assert(final(buffer)@ =~= old(buffer)@.map_values(|x: S| clipped(amplified(x, gain))));
}

} // verus!
