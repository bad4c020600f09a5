//! HTTP input of MIDI events: what a request puts into the ring and how it is answered.

use vstd::prelude::*;

use super::jsonl_spool::CnsMidiMessage;
use crate::midi::MidiEvent;
use crate::ring::EventRing;

verus! {

/// MIDI events submitted in one request.
#[derive(Debug)]
pub enum MidiPayload {
    Single(MidiEvent),
    Multiple(Vec<MidiEvent>),
}

/// The events of a payload.
pub open spec fn payload_events(payload: MidiPayload) -> Seq<MidiEvent> {
    match payload {
        MidiPayload::Single(event) => seq![event],
        MidiPayload::Multiple(events) => events@,
    }
}

/// How a request is answered.
#[derive(Debug, Clone, Copy, PartialEq, Eq, Structural)]
pub enum Reply {
    /// At least one event was taken.
    Accepted,
    /// No event was taken.
    ServiceUnavailable,
}

impl Reply {
    /// The HTTP status code.
    pub fn code(&self) -> (code: u16)
        ensures
            code == (match *self {
                Reply::Accepted => 200u16,
                Reply::ServiceUnavailable => 503u16,
            }),
    {
        match *self {
            Reply::Accepted => 200,
            Reply::ServiceUnavailable => 503,
        }
    }
}

/// The status of the renderer.
#[derive(Debug, Clone, Copy, PartialEq, Eq, Structural)]
pub struct StatusResponse {
    /// Number of voices that produce sound.
    pub active_voices: usize,
    pub ring_len: usize,
    pub ring_capacity: usize,
}

/// Submit MIDI events: they go into the ring in order, as many as it takes, and the request
/// succeeds if it takes any.
pub fn handle_midi(ring: &mut EventRing, payload: &MidiPayload) -> (reply: Reply)
    ensures
        ({
            let events = payload_events(*payload);
            let taken = crate::ring::room(
                old(ring)@.len() as int,
                old(ring).spec_capacity(),
                events.len() as int,
            );
            &&& final(ring)@ == old(ring)@ + events.take(taken)
            &&& reply == (if taken > 0 {
                Reply::Accepted
            } else {
                Reply::ServiceUnavailable
            })
        }),
        final(ring).spec_capacity() == old(ring).spec_capacity(),
{
    let pushed: usize = match payload {
        MidiPayload::Single(event) => {
            let events: Vec<MidiEvent> = vec![*event];
            assert(events@ =~= payload_events(*payload));
            ring.push_all(events.as_slice())
        },
        MidiPayload::Multiple(events) => ring.push_all(events.as_slice()),
    };
    if pushed > 0 {
        Reply::Accepted
    } else {
        Reply::ServiceUnavailable
    }
}

/// Submit one bus message: its event goes into the ring, if there is room.
pub fn handle_cns(ring: &mut EventRing, message: &CnsMidiMessage) -> (reply: Reply)
    ensures
        final(ring)@ == crate::ring::offered(
            old(ring)@,
            old(ring).spec_capacity(),
            super::jsonl_spool::event_of(*message),
        ),
        reply == (if old(ring)@.len() < old(ring).spec_capacity() - 1 {
            Reply::Accepted
        } else {
            Reply::ServiceUnavailable
        }),
        final(ring).spec_capacity() == old(ring).spec_capacity(),
{
    if ring.push(message.to_event()) {
        Reply::Accepted
    } else {
        Reply::ServiceUnavailable
    }
}

/// The health check.
pub fn handle_health() -> (answer: &'static str)
    ensures
        answer@ == "ok"@,
{
    "ok"
}

/// The status word of a renderer that answers.
pub fn status_word() -> (word: &'static str)
    ensures
        word@ == "running"@,
{
    "running"
}

/// The status of the renderer, of whose voices `active_voices` produce sound.
pub fn handle_status(ring: &EventRing, active_voices: usize) -> (status: StatusResponse)
    ensures
        status.active_voices == active_voices,
        status.ring_len == ring@.len(),
        status.ring_capacity == ring.spec_capacity(),
{
    StatusResponse { active_voices, ring_len: ring.len(), ring_capacity: ring.capacity() }
}

/// A request is refused exactly if it left the ring as it was: a full ring refuses every
/// request, and so does any ring a request without events.
pub proof fn law_refused_means_unchanged(queue: Seq<MidiEvent>, capacity: int, events: Seq<MidiEvent>)
    requires
        queue.len() < capacity,
    ensures
        ({
            let taken = crate::ring::room(queue.len() as int, capacity, events.len() as int);
            &&& taken == 0 <==> queue + events.take(taken) == queue
            &&& taken == 0 <==> events.len() == 0 || queue.len() == capacity - 1
        }),
{
    let taken = crate::ring::room(queue.len() as int, capacity, events.len() as int);
    if taken == 0 {
        assert(queue + events.take(0) =~= queue);
    } else {
        assert((queue + events.take(taken)).len() == queue.len() + taken);
    }
}

/// A payload holds the events that were sent, in order: a single one, or all of a list.
pub proof fn law_payload_holds_what_was_sent(event: MidiEvent, events: Vec<MidiEvent>)
    ensures
        payload_events(MidiPayload::Single(event)).len() == 1,
        payload_events(MidiPayload::Single(event))[0] == event,
        payload_events(MidiPayload::Multiple(events)) == events@,
{
}

/// A request is accepted exactly if the ring holds more afterwards, and it holds then what it
/// held and the first events of the request behind it: all of them, if there is room.
pub proof fn law_reply_tells_what_was_taken(ring: &mut EventRing, payload: &MidiPayload, reply: Reply)
    requires
        call_ensures(handle_midi, (ring, payload), reply),
        old(ring)@.len() < old(ring).spec_capacity(),
    ensures
        ({
            let events = payload_events(*payload);
            let taken = final(ring)@.len() - old(ring)@.len();
            &&& reply == Reply::Accepted <==> final(ring)@ != old(ring)@
            &&& reply == Reply::Accepted || reply == Reply::ServiceUnavailable
            &&& 0 <= taken <= events.len()
            &&& final(ring)@ == old(ring)@ + events.take(taken)
            &&& taken < events.len() ==> final(ring)@.len() + 1 == final(ring).spec_capacity()
        }),
{
    let events = payload_events(*payload);
    let taken = crate::ring::room(
        old(ring)@.len() as int,
        old(ring).spec_capacity(),
        events.len() as int,
    );
    law_refused_means_unchanged(old(ring)@, old(ring).spec_capacity(), events);
    assert(final(ring)@.len() == old(ring)@.len() + taken);
}

/// A bus message that is accepted is the newest event of the ring, with the pitch as its note;
/// one that is refused found the ring full and left it as it was.
pub proof fn law_message_is_queued(ring: &mut EventRing, message: &CnsMidiMessage, reply: Reply)
    requires
        call_ensures(handle_cns, (ring, message), reply),
        old(ring)@.len() < old(ring).spec_capacity(),
    ensures
        reply == Reply::Accepted || reply == Reply::ServiceUnavailable,
        reply == Reply::Accepted <==> old(ring)@.len() + 1 < old(ring).spec_capacity(),
        reply == Reply::Accepted ==> {
            &&& final(ring)@.len() == old(ring)@.len() + 1
            &&& final(ring)@.drop_last() == old(ring)@
            &&& final(ring)@.last().note == message.pitch
            &&& final(ring)@.last().velocity == message.velocity
            &&& final(ring)@.last().channel == message.channel
            &&& final(ring)@.last().timestamp_us == message.timestamp_us
        },
        reply == Reply::ServiceUnavailable ==> final(ring)@ == old(ring)@,
{
    if reply == Reply::Accepted {
        assert(final(ring)@.drop_last() =~= old(ring)@);
    }
}

/// The status tells the ring as it is: as many events as it holds, which are fewer than the slots
/// that it has.
pub proof fn law_status_tells_the_ring(
    ring: &EventRing,
    active_voices: usize,
    status: StatusResponse,
    n: usize,
    capacity: usize,
    empty: bool,
)
    requires
        call_ensures(handle_status, (ring, active_voices), status),
        call_ensures(EventRing::len, (ring,), n),
        call_ensures(EventRing::capacity, (ring,), capacity),
        call_ensures(EventRing::is_empty, (ring,), empty),
    ensures
        status.ring_len == n,
        status.ring_capacity == capacity,
        status.ring_len < status.ring_capacity,
        empty <==> n == 0,
        n == ring@.len(),
        status.active_voices == active_voices,
{
}

} // verus!
