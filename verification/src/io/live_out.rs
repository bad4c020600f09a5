//! Live output: the buffer between the renderer and the audio device.
//!
//! The buffer holds about a second of sound. If the device falls behind, the oldest frames
//! are dropped: a live room does not catch up, it moves on. If the renderer falls behind,
//! the device plays silence.

use vstd::prelude::*;

use crate::window::RollingWindow;

verus! {

/// The most frames that are buffered, about a second at 48000 Hz.
pub const MAX_BUFFERED: usize = 48_000;

/// What the device gets for `n` frames: the oldest ones of `frames`, and `silence` once
/// there are no more.
pub open spec fn handed_out<S>(frames: Seq<S>, n: nat, silence: S) -> Seq<S> {
    Seq::new(
        n,
        |i: int|
            if i < frames.len() {
                frames[i]
            } else {
                silence
            },
    )
}

/// What is left of `frames` after `n` of them are handed out.
pub open spec fn left_over<S>(frames: Seq<S>, n: nat) -> Seq<S> {
    if n < frames.len() {
        frames.skip(n as int)
    } else {
        Seq::empty()
    }
}

/// Frames on their way to the audio device, oldest first.
#[derive(Debug)]
pub struct LiveBuffer<S> {
    frames: RollingWindow<S>,
}

impl<S> View for LiveBuffer<S> {
    type V = Seq<S>;

    closed spec fn view(&self) -> Seq<S> {
        self.frames@
    }
}

impl<S> LiveBuffer<S> {
    #[verifier::type_invariant]
    spec fn well_formed(&self) -> bool {
        self.frames.limit() == MAX_BUFFERED
    }
}

impl<S: Copy> LiveBuffer<S> {
    /// An empty buffer, with room for all frames that it may hold.
    pub fn new() -> (buffer: LiveBuffer<S>)
        requires
            crate::window::fits_memory::<S>(MAX_BUFFERED as int),
        ensures
            buffer@ == Seq::<S>::empty(),
    {
        LiveBuffer { frames: RollingWindow::new(MAX_BUFFERED) }
    }

    /// Push one chunk into the buffer. The oldest frames are dropped if there is no room.
    pub fn write_chunk(&mut self, chunk: &[S])
        ensures
            final(self)@.len() <= MAX_BUFFERED,
            final(self)@ == crate::window::newest(old(self)@ + chunk@, MAX_BUFFERED as int),
    {
        proof {
            use_type_invariant(&*self);
        }
        let ghost before = self@;
        let mut frames: RollingWindow<S> = self.frames.stand_in();
        std::mem::swap(&mut frames, &mut self.frames);
        let held: usize = frames.len();
        assert(chunk@.take(0) =~= Seq::empty());
        for i in 0..chunk.len()
            invariant
                frames.limit() == MAX_BUFFERED,
                frames@ == crate::window::rolled_each(
                    before,
                    MAX_BUFFERED as int,
                    chunk@.take(i as int),
                ),
        {
            proof {
                assert(chunk@.take(i + 1).drop_last() =~= chunk@.take(i as int));
                assert(chunk@.take(i + 1).last() == chunk@[i as int]);
            }
            let _ = frames.push(chunk[i]);
        }
        self.frames = frames;
        proof {
            assert(before.len() == held);
            assert(chunk@.take(chunk@.len() as int) =~= chunk@);
            crate::window::law_window_holds_newest(before, MAX_BUFFERED as int, chunk@);
        }
    }

    /// Fill `out` for the device: the oldest frames first, and `silence` once there are no
    /// more.
    pub fn fill(&mut self, out: &mut [S], silence: S)
        ensures
            final(out)@ == handed_out(old(self)@, old(out)@.len(), silence),
            final(self)@ == left_over(old(self)@, old(out)@.len()),
    {
        proof {
            use_type_invariant(&*self);
        }
        let ghost before = self@;
        let mut frames: RollingWindow<S> = self.frames.stand_in();
        std::mem::swap(&mut frames, &mut self.frames);
        let total: usize = out.len();
        for i in 0..total
            invariant
                frames.limit() == MAX_BUFFERED,
                total == out@.len(),
                out@.len() == old(out)@.len(),
                frames@ =~= (if i < before.len() {
                    before.skip(i as int)
                } else {
                    Seq::empty()
                }),
                forall|j: int|
                    0 <= j < i ==> #[trigger] out@[j] == (if j < before.len() {
                        before[j]
                    } else {
                        silence
                    }),
        {
            let frame = match frames.pop() {
                Some(frame) => frame,
                None => silence,
            };
            out[i] = frame;
        }
        self.frames = frames;
    }

    /// Has the buffer run empty?
    pub fn is_idle(&self) -> (idle: bool)
        ensures
            idle == (self@.len() == 0),
    {
        self.frames.len() == 0
    }
}

/// What is written is played, in order and without a gap: as long as there is room, a chunk
/// written behind `frames` and as many frames filled as are buffered then, hands out `frames`
/// and the chunk, and leaves nothing.
pub proof fn law_written_is_played<S>(frames: Seq<S>, chunk: Seq<S>, silence: S)
    requires
        frames.len() + chunk.len() <= MAX_BUFFERED,
    ensures
        ({
            let buffered = crate::window::newest(frames + chunk, MAX_BUFFERED as int);
            let n = (frames.len() + chunk.len()) as nat;
            &&& handed_out(buffered, n, silence) == frames + chunk
            &&& left_over(buffered, n) == Seq::<S>::empty()
        }),
{
    let n = (frames.len() + chunk.len()) as nat;
    assert(handed_out(frames + chunk, n, silence) =~= frames + chunk);
}

/// The room moves on: whatever is written, no more than [`MAX_BUFFERED`] frames are kept,
/// and the last frame written is the last one kept.
pub proof fn law_buffer_is_bounded<S>(frames: Seq<S>, chunk: Seq<S>)
    requires
        chunk.len() > 0,
    ensures
        crate::window::newest(frames + chunk, MAX_BUFFERED as int).len() <= MAX_BUFFERED,
        crate::window::newest(frames + chunk, MAX_BUFFERED as int).last() == chunk.last(),
{
}

/// The device gets what is buffered, in order, and silence behind it: what is handed out and what
/// is left over are the buffer together, and one fill is as good as two that ask for as much.
pub proof fn law_fill_takes_from_the_front<S>(frames: Seq<S>, n: nat, m: nat, silence: S)
    ensures
        handed_out(frames, n, silence).len() == n,
        n <= frames.len() ==> handed_out(frames, n, silence) + left_over(frames, n) == frames,
        n >= frames.len() ==> left_over(frames, n).len() == 0 && handed_out(frames, n, silence)
            == frames + Seq::new((n - frames.len()) as nat, |i: int| silence),
        handed_out(frames, n, silence) + handed_out(left_over(frames, n), m, silence)
            == handed_out(frames, n + m, silence),
        left_over(left_over(frames, n), m) == left_over(frames, n + m),
{
    if n <= frames.len() {
        assert(handed_out(frames, n, silence) + left_over(frames, n) =~= frames);
    }
    if n >= frames.len() {
        assert(handed_out(frames, n, silence) =~= frames + Seq::new(
            (n - frames.len()) as nat,
            |i: int| silence,
        ));
    }
    assert(handed_out(frames, n, silence) + handed_out(left_over(frames, n), m, silence)
        =~= handed_out(frames, n + m, silence));
    assert(left_over(left_over(frames, n), m) =~= left_over(frames, n + m));
}

/// Writing and filling: what the device gets first is the oldest frame, a write that fits loses
/// nothing, and a buffer is idle exactly if the device would get nothing but silence.
pub proof fn law_write_then_fill<S: Copy>(
    writing: &mut LiveBuffer<S>,
    chunk: &[S],
    filling: &mut LiveBuffer<S>,
    out: &mut [S],
    silence: S,
    idle: bool,
)
    requires
        call_ensures(LiveBuffer::<S>::write_chunk, (writing, chunk), ()),
        *old(filling) == *final(writing),
        call_ensures(LiveBuffer::<S>::fill, (filling, out, silence), ()),
        call_ensures(LiveBuffer::<S>::is_idle, (&*final(filling),), idle),
        old(writing)@.len() + chunk@.len() <= 48_000,
    ensures
        ({
            let all = old(writing)@ + chunk@;
            let n = old(out)@.len();
            &&& final(out)@.len() == n
            &&& n <= all.len() ==> final(out)@ + final(filling)@ == all
            &&& n >= all.len() ==> final(out)@.take(all.len() as int) == all && final(filling)@.len()
                == 0
            &&& forall|i: int| all.len() <= i < n ==> #[trigger] final(out)@[i] == silence
            &&& idle <==> n >= all.len()
        }),
{
    let all = old(writing)@ + chunk@;
    let n = old(out)@.len();
    law_fill_takes_from_the_front(all, n, 0, silence);
    if n >= all.len() {
        assert(final(out)@.take(all.len() as int) =~= all);
    }
}

} // verus!
