//! Event spool: which files of the spool directory are read and in which order, what counts
//! as a record in them, and what becomes of the events.
//!
//! Each line of a spool file is one JSON event.

use vstd::prelude::*;

use crate::midi::MidiEvent;
use crate::ring::EventRing;
use crate::text::{chars_of, string_of, trim};

verus! {

/// A note as other systems announce it on the bus.
#[derive(Debug, Clone, Copy, PartialEq, Eq, Structural)]
pub struct CnsMidiMessage {
    pub timestamp_us: u64,
    pub pitch: u8,
    pub velocity: u8,
    pub channel: u8,
}

/// The MIDI event that a bus message stands for.
pub open spec fn event_of(message: CnsMidiMessage) -> MidiEvent {
    MidiEvent {
        timestamp_us: message.timestamp_us,
        channel: message.channel,
        note: message.pitch,
        velocity: message.velocity,
    }
}

impl CnsMidiMessage {
    /// The MIDI event that the message stands for.
    pub fn to_event(&self) -> (event: MidiEvent)
        ensures
            event == event_of(*self),
    {
        MidiEvent {
            timestamp_us: self.timestamp_us,
            channel: self.channel,
            note: self.pitch,
            velocity: self.velocity,
        }
    }
}

/// The event of a line that was read as an event (`direct`) and as a bus message
/// (`message`): a line that is an event is taken as that.
pub fn parse_midi_line(direct: Option<MidiEvent>, message: Option<CnsMidiMessage>) -> (event: Option<
    MidiEvent,
>)
    ensures
        event == (match (direct, message) {
            (Some(event), _) => Some(event),
            (None, Some(message)) => Some(event_of(message)),
            (None, None) => None,
        }),
{
    if let Some(event) = direct {
        return Some(event);
    }
    if let Some(message) = message {
        return Some(message.to_event());
    }
    None
}

/// The records among the pieces of a file: trimmed, and without those that are empty then.
pub open spec fn records_of(pieces: Seq<Seq<char>>) -> Seq<Seq<char>>
    decreases pieces.len(),
{
    if pieces.len() == 0 {
        Seq::empty()
    } else {
        let record = crate::text::trimmed(pieces.last());
        if record.len() > 0 {
            records_of(pieces.drop_last()).push(record)
        } else {
            records_of(pieces.drop_last())
        }
    }
}

/// The texts of `lines`.
pub open spec fn texts(lines: Seq<String>) -> Seq<Seq<char>> {
    lines.map_values(|line: String| line@)
}

/// Add the record in `piece` to `records`, if there is one.
fn add_record(records: &mut Vec<String>, piece: &[char])
    ensures
        ({
            let record = crate::text::trimmed(piece@);
            texts(final(records)@) == (if record.len() > 0 {
                texts(old(records)@).push(record)
            } else {
                texts(old(records)@)
            })
        }),
{
    let ghost before = records@;
    let record: Vec<char> = trim(piece);
    if record.len() > 0 {
        records.push(string_of(record.as_slice()));
        assert(texts(records@) =~= texts(before).push(record@));
    }
}

/// The records of a spool file: its lines without surrounding white space, but for those
/// that are blank.
pub fn spool_records(content: &str) -> (records: Vec<String>)
    ensures
        texts(records@) == records_of(crate::text::split_lines(content@)),
{
    let chars: Vec<char> = chars_of(content);
    let mut records: Vec<String> = Vec::new();
    let mut piece: Vec<char> = Vec::new();
    let ghost mut pieces = crate::text::split_lines(content@.take(0));
    proof {
        assert(content@.take(0) =~= Seq::empty());
        assert(texts(records@) =~= Seq::empty());
        assert(pieces.drop_last() =~= Seq::empty());
        assert(piece@ =~= pieces.last());
    }
    for i in 0..chars.len()
        invariant
            chars@ == content@,
            pieces == crate::text::split_lines(content@.take(i as int)),
            pieces.len() > 0,
            piece@ == pieces.last(),
            texts(records@) == records_of(pieces.drop_last()),
    {
        let ghost grown = crate::text::split_lines(content@.take(i + 1));
        proof {
            assert(content@.take(i + 1).drop_last() =~= content@.take(i as int));
            assert(content@.take(i + 1).last() == chars@[i as int]);
        }
        if chars[i] == '\n' {
            add_record(&mut records, piece.as_slice());
            piece = Vec::new();
            proof {
                assert(grown.drop_last() =~= pieces);
                assert(piece@ =~= grown.last());
            }
        } else {
            piece.push(chars[i]);
            proof {
                assert(grown.drop_last() =~= pieces.drop_last());
                assert(piece@ =~= grown.last());
            }
        }
        proof {
            pieces = grown;
        }
    }
    assert(content@.take(content@.len() as int) =~= content@);
    add_record(&mut records, piece.as_slice());
    records
}

/// The bytes of the file name ending `.jsonl`.
pub open spec fn spool_ending() -> Seq<u8> {
    seq![46u8, 106u8, 115u8, 111u8, 110u8, 108u8]
}

/// Is `name` the name of a spool file? It ends in `.jsonl`, and a stem stands before that.
pub open spec fn is_spool_name(name: Seq<u8>) -> bool {
    name.len() > 6 && name.skip(name.len() - 6) == spool_ending()
}

/// Is `name` the name of a spool file?
pub fn is_spool_file(name: &[u8]) -> (yes: bool)
    ensures
        yes == is_spool_name(name@),
{
    let n: usize = name.len();
    if n <= 6 {
        return false;
    }
    let ghost ending = name@.skip(n - 6);
    let yes = name[n - 6] == 46u8 && name[n - 5] == 106u8 && name[n - 4] == 115u8 && name[n - 3]
        == 111u8 && name[n - 2] == 110u8 && name[n - 1] == 108u8;
    proof {
        let wanted = spool_ending();
        if yes {
            assert(ending =~= wanted);
        } else if ending == wanted {
            assert(ending[0] == 46u8 && ending[1] == 106u8 && ending[2] == 115u8 && ending[3]
                == 111u8 && ending[4] == 110u8 && ending[5] == 108u8);
        }
    }
    yes
}

/// The order of file names: byte by byte, and a name before those that go on from it.
pub open spec fn name_le(a: Seq<u8>, b: Seq<u8>) -> bool
    decreases a.len(),
{
    if a.len() == 0 {
        true
    } else if b.len() == 0 {
        false
    } else if a[0] != b[0] {
        a[0] < b[0]
    } else {
        name_le(a.drop_first(), b.drop_first())
    }
}

/// Does `a` stand before `b`, or is it the same name?
fn in_order(a: &[u8], b: &[u8]) -> (yes: bool)
    ensures
        yes == name_le(a@, b@),
{
    let mut i: usize = 0;
    assert(a@.skip(0) =~= a@);
    assert(b@.skip(0) =~= b@);
    while i < a.len()
        invariant
            i <= a@.len(),
            i <= b@.len(),
            name_le(a@, b@) == name_le(a@.skip(i as int), b@.skip(i as int)),
        decreases a@.len() - i,
    {
        if i == b.len() {
            return false;
        }
        if a[i] != b[i] {
            return a[i] < b[i];
        }
        assert(a@.skip(i as int).drop_first() =~= a@.skip(i + 1));
        assert(b@.skip(i as int).drop_first() =~= b@.skip(i + 1));
        i = i + 1;
    }
    true
}

/// The order of names is total, and only equal names stand before each other.
pub proof fn law_names_are_ordered(a: Seq<u8>, b: Seq<u8>, c: Seq<u8>)
    ensures
        name_le(a, b) || name_le(b, a),
        name_le(a, b) && name_le(b, a) ==> a == b,
        name_le(a, b) && name_le(b, c) ==> name_le(a, c),
    decreases a.len(),
{
    if a.len() == 0 {
        if b.len() == 0 {
            assert(a =~= b);
        }
    } else if b.len() > 0 {
        law_names_are_ordered(
            a.drop_first(),
            b.drop_first(),
            if c.len() > 0 {
                c.drop_first()
            } else {
                c
            },
        );
        if a[0] == b[0] && a.drop_first() == b.drop_first() {
            assert(a =~= seq![a[0]] + a.drop_first());
            assert(b =~= seq![b[0]] + b.drop_first());
        }
    }
}

/// `order` lists the spool files among `names`, each once, in the order of their names.
pub open spec fn is_spool_order(names: Seq<Vec<u8>>, order: Seq<usize>) -> bool {
    &&& forall|i: int|
        0 <= i < order.len() ==> (#[trigger] order[i]) < names.len() && is_spool_name(
            names[order[i] as int]@,
        )
    &&& forall|k: int|
        0 <= k < names.len() && is_spool_name((#[trigger] names[k])@) ==> order.contains(k as usize)
    &&& forall|i: int, j: int|
        0 <= i < j < order.len() ==> #[trigger] order[i] != #[trigger] order[j] && name_le(
            names[order[i] as int]@,
            names[order[j] as int]@,
        )
}

/// The order is deterministic: files of different names are listed in one order only.
pub proof fn law_spool_order_is_unique(names: Seq<Vec<u8>>, a: Seq<usize>, b: Seq<usize>)
    requires
        names.len() <= usize::MAX,
        forall|i: int, j: int|
            0 <= i < j < names.len() ==> (#[trigger] names[i])@ != (#[trigger] names[j])@,
        is_spool_order(names, a),
        is_spool_order(names, b),
    ensures
        a == b,
{
    lemma_orders_agree(names, a, b, a.len() as int);
    lemma_orders_agree(names, b, a, b.len() as int);
    assert(a =~= b);
}

/// The first `n` entries of two orders agree.
proof fn lemma_orders_agree(names: Seq<Vec<u8>>, a: Seq<usize>, b: Seq<usize>, n: int)
    requires
        names.len() <= usize::MAX,
        forall|i: int, j: int|
            0 <= i < j < names.len() ==> (#[trigger] names[i])@ != (#[trigger] names[j])@,
        is_spool_order(names, a),
        is_spool_order(names, b),
        0 <= n <= a.len(),
    ensures
        n <= b.len(),
        forall|i: int| 0 <= i < n ==> #[trigger] a[i] == b[i],
    decreases n,
{
    if n > 0 {
        let i = n - 1;
        lemma_orders_agree(names, a, b, i);
        let x = a[i];
        assert(is_spool_name(names[x as int]@));
        assert(b.contains(x));
        let j = choose|j: int| 0 <= j < b.len() && b[j] == x;
        if j < i {
            assert(a[j] == b[j]);
            assert(false);
        }
        if j > i {
            let y = b[i];
            assert(is_spool_name(names[y as int]@));
            assert(a.contains(y));
            let k = choose|k: int| 0 <= k < a.len() && a[k] == y;
            if k < i {
                assert(b[k] == y);
                assert(false);
            }
            assert(b[i] != b[j]);
            assert(k > i);
            assert(name_le(names[a[i] as int]@, names[a[k] as int]@));
            assert(name_le(names[b[i] as int]@, names[b[j] as int]@));
            law_names_are_ordered(names[x as int]@, names[y as int]@, names[y as int]@);
            assert(names[x as int]@ == names[y as int]@);
            assert(false);
        }
    }
}

/// The spool files among `names`, as indices, in the order in which they are read.
pub fn spool_order(names: &Vec<Vec<u8>>) -> (order: Vec<usize>)
    ensures
        is_spool_order(names@, order@),
{
    let mut order: Vec<usize> = Vec::new();
    for k in 0..names.len()
        invariant
            forall|i: int|
                0 <= i < order@.len() ==> (#[trigger] order@[i]) < k && is_spool_name(
                    names@[order@[i] as int]@,
                ),
            forall|m: int|
                0 <= m < k && is_spool_name((#[trigger] names@[m])@) ==> order@.contains(m as usize),
            forall|i: int, j: int|
                0 <= i < j < order@.len() ==> #[trigger] order@[i] != #[trigger] order@[j]
                    && name_le(names@[order@[i] as int]@, names@[order@[j] as int]@),
    {
        if is_spool_file(names[k].as_slice()) {
            let ghost before = order@;
            let mut at: usize = order.len();
            while at > 0 && !in_order(names[order[at - 1]].as_slice(), names[k].as_slice())
                invariant
                    k < names@.len(),
                    order@ == before,
                    at <= order@.len(),
                    forall|i: int|
                        0 <= i < order@.len() ==> (#[trigger] order@[i]) < k && is_spool_name(
                            names@[order@[i] as int]@,
                        ),
                    forall|i: int|
                        at <= i < order@.len() ==> !name_le(
                            names@[(#[trigger] order@[i]) as int]@,
                            names@[k as int]@,
                        ),
                decreases at,
            {
                at = at - 1;
            }
            order.insert(at, k);
            proof {
                let after = order@;
                assert(after =~= before.insert(at as int, k));
                assert forall|i: int| 0 <= i < after.len() implies (#[trigger] after[i]) < k + 1
                    && is_spool_name(names@[after[i] as int]@) by {
                    if i < at {
                        assert(after[i] == before[i]);
                    } else if i > at {
                        assert(after[i] == before[i - 1]);
                    }
                }
                assert forall|m: int|
                    0 <= m < k + 1 && is_spool_name((#[trigger] names@[m])@) implies after.contains(
                    m as usize,
                ) by {
                    if m < k {
                        let i = choose|i: int| 0 <= i < before.len() && before[i] == m as usize;
                        if i < at {
                            assert(after[i] == m as usize);
                        } else {
                            assert(after[i + 1] == m as usize);
                        }
                    } else {
                        assert(after[at as int] == m as usize);
                    }
                }
                assert forall|i: int, j: int| 0 <= i < j < after.len() implies #[trigger] after[i]
                    != #[trigger] after[j] && name_le(
                    names@[after[i] as int]@,
                    names@[after[j] as int]@,
                ) by {
                    let name = names@[k as int]@;
                    if j < at {
                        assert(after[i] == before[i] && after[j] == before[j]);
                    } else if j == at {
                        assert(after[i] == before[i]);
                        let last = before[at - 1];
                        assert(name_le(names@[last as int]@, name));
                        if i < at - 1 {
                            assert(name_le(names@[before[i] as int]@, names@[last as int]@));
                        }
                        law_names_are_ordered(
                            names@[before[i] as int]@,
                            names@[last as int]@,
                            name,
                        );
                    } else if i == at {
                        assert(after[j] == before[j - 1]);
                        law_names_are_ordered(names@[before[j - 1] as int]@, name, name);
                    } else {
                        let m = if i < at {
                            i
                        } else {
                            i - 1
                        };
                        assert(after[i] == before[m] && after[j] == before[j - 1]);
                    }
                }
            }
        }
    }
    order
}

/// The events among the records of a file: those that could be read.
pub open spec fn events_of(parsed: Seq<Option<MidiEvent>>) -> Seq<MidiEvent>
    decreases parsed.len(),
{
    if parsed.len() == 0 {
        Seq::empty()
    } else {
        match parsed.last() {
            Some(event) => events_of(parsed.drop_last()).push(event),
            None => events_of(parsed.drop_last()),
        }
    }
}

/// Reads the spool files of a directory.
#[derive(Debug)]
pub struct JsonlSpoolReader {
    spool_dir: String,
}

impl JsonlSpoolReader {
    /// The directory.
    pub closed spec fn dir(&self) -> Seq<char> {
        self.spool_dir@
    }

    /// A reader of the spool files in `spool_dir`.
    pub fn new(spool_dir: String) -> (reader: JsonlSpoolReader)
        ensures
            reader.dir() == spool_dir@,
    {
        JsonlSpoolReader { spool_dir }
    }

    /// The directory that the reader reads.
    pub fn spool_dir(&self) -> (dir: &str)
        ensures
            dir@ == self.dir(),
    {
        self.spool_dir.as_str()
    }

    /// Push the events of a file into the ring: `parsed` holds what each record was read as,
    /// `None` for one that could not be read. Returns the number of events; those that find
    /// the ring full are dropped.
    pub fn process_file(&self, ring: &mut EventRing, parsed: &[Option<MidiEvent>]) -> (count: usize)
        ensures
            count == events_of(parsed@).len(),
            final(ring)@ == crate::ring::offered_each(
                old(ring)@,
                old(ring).spec_capacity(),
                events_of(parsed@),
            ),
            final(ring).spec_capacity() == old(ring).spec_capacity(),
    {
        let mut count: usize = 0;
        assert(parsed@.take(0) =~= Seq::empty());
        for i in 0..parsed.len()
            invariant
                count <= i <= parsed@.len(),
                count == events_of(parsed@.take(i as int)).len(),
                ring@ == crate::ring::offered_each(
                    old(ring)@,
                    old(ring).spec_capacity(),
                    events_of(parsed@.take(i as int)),
                ),
                ring.spec_capacity() == old(ring).spec_capacity(),
        {
            let ghost done = events_of(parsed@.take(i as int));
            proof {
                assert(parsed@.take(i + 1).drop_last() =~= parsed@.take(i as int));
                assert(parsed@.take(i + 1).last() == parsed@[i as int]);
            }
            if let Some(event) = parsed[i] {
                ring.push(event);
                proof {
                    assert(done.push(event).drop_last() =~= done);
                }
                count = count + 1;
            }
        }
        assert(parsed@.take(parsed@.len() as int) =~= parsed@);
        count
    }
}

/// No record is blank or has white space at its ends.
pub proof fn law_records_are_trimmed(pieces: Seq<Seq<char>>)
    ensures
        forall|i: int|
            0 <= i < records_of(pieces).len() ==> {
                let record = #[trigger] records_of(pieces)[i];
                &&& record.len() > 0
                &&& !crate::text::white_space(record.first())
                &&& !crate::text::white_space(record.last())
            },
        records_of(pieces).len() <= pieces.len(),
    decreases pieces.len(),
{
    if pieces.len() > 0 {
        law_records_are_trimmed(pieces.drop_last());
        crate::text::law_trim_takes_white_space_off(pieces.last());
    }
}

/// The number of records that could be read.
pub open spec fn readable_among(parsed: Seq<Option<MidiEvent>>) -> nat {
    parsed.filter(|record: Option<MidiEvent>| record is Some).len()
}

/// The events of a file are exactly its readable records, each once and in order: a file in two
/// parts has the events of the one and then those of the other, a readable record is one event
/// and an unreadable one none.
pub proof fn law_events_are_the_readable_records(
    first: Seq<Option<MidiEvent>>,
    second: Seq<Option<MidiEvent>>,
)
    ensures
        events_of(first + second) == events_of(first) + events_of(second),
        events_of(second).len() == readable_among(second),
        second.len() == 0 ==> events_of(second).len() == 0,
        second.len() == 1 && second[0] is Some ==> events_of(second) == seq![second[0]->Some_0],
        second.len() == 1 && second[0] is None ==> events_of(second).len() == 0,
        (forall|i: int| 0 <= i < second.len() ==> (#[trigger] second[i]) is Some) ==> events_of(
            second,
        ) == second.map_values(|record: Option<MidiEvent>| record->Some_0),
    decreases second.len(),
{
    reveal(Seq::filter);
    if second.len() == 0 {
        assert(first + second =~= first);
        assert(events_of(second) =~= second.map_values(|record: Option<MidiEvent>| record->Some_0));
    } else {
        let init = second.drop_last();
        law_events_are_the_readable_records(first, init);
        assert((first + second).drop_last() =~= first + init);
        assert((first + second).last() == second.last());
        if second.len() == 1 {
            assert(events_of(init) =~= Seq::empty());
        }
        if forall|i: int| 0 <= i < second.len() ==> (#[trigger] second[i]) is Some {
            assert forall|i: int| 0 <= i < init.len() implies (#[trigger] init[i]) is Some by {
                assert(init[i] == second[i]);
            }
            assert(second[second.len() - 1] is Some);
            assert(events_of(second) =~= second.map_values(
                |record: Option<MidiEvent>| record->Some_0,
            ));
        }
    }
}

/// The event of a readable record stands behind those of the readable records before it.
pub proof fn law_event_of_each_record(parsed: Seq<Option<MidiEvent>>, i: int)
    requires
        0 <= i < parsed.len(),
        parsed[i] is Some,
    ensures
        readable_among(parsed.take(i)) < events_of(parsed).len(),
        events_of(parsed)[readable_among(parsed.take(i)) as int] == parsed[i]->Some_0,
{
    let before = parsed.take(i);
    let one = seq![parsed[i]];
    let rest = parsed.skip(i + 1);
    assert(parsed =~= before + (one + rest));
    law_events_are_the_readable_records(before, one + rest);
    law_events_are_the_readable_records(one, rest);
    law_events_are_the_readable_records(rest, one);
    law_events_are_the_readable_records(one, before);
}

/// The records of a file are exactly its lines that are not blank, each once, in order and
/// without the white space around them.
pub proof fn law_records_are_the_lines(first: Seq<Seq<char>>, second: Seq<Seq<char>>)
    ensures
        records_of(first + second) == records_of(first) + records_of(second),
        second.len() == 0 ==> records_of(second).len() == 0,
        second.len() == 1 && crate::text::trimmed(second[0]).len() == 0 ==> records_of(second).len()
            == 0,
        second.len() == 1 && crate::text::trimmed(second[0]).len() > 0 ==> records_of(second)
            == seq![crate::text::trimmed(second[0])],
    decreases second.len(),
{
    if second.len() == 0 {
        assert(first + second =~= first);
    } else {
        let init = second.drop_last();
        law_records_are_the_lines(first, init);
        assert((first + second).drop_last() =~= first + init);
        assert((first + second).last() == second.last());
        if second.len() == 1 {
            assert(records_of(init) =~= Seq::empty());
        }
    }
}

/// Names are ordered as words are: where they first differ, the smaller byte stands first, and
/// a name stands before those that go on from it.
pub proof fn law_names_are_ordered_as_words(common: Seq<u8>, a: Seq<u8>, b: Seq<u8>)
    ensures
        name_le(common, common + b),
        b.len() > 0 ==> !name_le(common + b, common),
        a.len() > 0 && b.len() > 0 && a[0] < b[0] ==> name_le(common + a, common + b) && !name_le(
            common + b,
            common + a,
        ),
    decreases common.len(),
{
    if common.len() > 0 {
        let rest = common.drop_first();
        law_names_are_ordered_as_words(rest, a, b);
        assert((common + a).drop_first() =~= rest + a);
        assert((common + b).drop_first() =~= rest + b);
    } else {
        assert(common + a =~= a);
        assert(common + b =~= b);
    }
}

/// A spool file is named by any stem but an empty one and the ending `.jsonl` behind it.
pub proof fn law_spool_files_are_named_by_stems(name: Seq<u8>)
    ensures
        is_spool_name(name) <==> exists|stem: Seq<u8>|
            stem.len() > 0 && name == #[trigger] (stem + spool_ending()),
        spool_ending() == seq!['.' as u8, 'j' as u8, 's' as u8, 'o' as u8, 'n' as u8, 'l' as u8],
{
    if is_spool_name(name) {
        let stem = name.take(name.len() - 6);
        assert(name =~= stem + spool_ending());
    }
    if exists|stem: Seq<u8>| stem.len() > 0 && name == #[trigger] (stem + spool_ending()) {
        let stem = choose|stem: Seq<u8>|
            stem.len() > 0 && name == #[trigger] (stem + spool_ending());
        assert(name.skip(name.len() - 6) =~= spool_ending());
    }
}

/// A bus message is an event of the same time, channel and velocity, whose note is the pitch, so
/// that different messages are different events.
pub proof fn law_message_is_its_event(message: CnsMidiMessage, other: CnsMidiMessage)
    ensures
        event_of(message).timestamp_us == message.timestamp_us,
        event_of(message).channel == message.channel,
        event_of(message).note == message.pitch,
        event_of(message).velocity == message.velocity,
        event_of(message) == event_of(other) ==> message == other,
{
}

/// A file goes into the ring whole, if there is room: behind what was queued stand its readable
/// records, each once and in order. The count is that of the readable records, whether or not
/// there was room, and what was queued stays.
pub proof fn law_file_goes_into_the_ring(
    reader: &JsonlSpoolReader,
    ring: &mut EventRing,
    parsed: &[Option<MidiEvent>],
    count: usize,
)
    requires
        call_ensures(JsonlSpoolReader::process_file, (reader, ring, parsed), count),
        old(ring)@.len() < old(ring).spec_capacity(),
    ensures
        count == readable_among(parsed@),
        old(ring)@.len() + count < old(ring).spec_capacity() ==> {
            &&& final(ring)@.len() == old(ring)@.len() + count
            &&& forall|i: int|
                0 <= i < parsed@.len() && (#[trigger] parsed@[i]) is Some ==> final(ring)@[old(ring)@.len() as int
                    + readable_among(parsed@.take(i))] == parsed@[i]->Some_0
        },
        old(ring)@.len() + count >= old(ring).spec_capacity() ==> final(ring)@.len() + 1
            == old(ring).spec_capacity(),
        final(ring)@.take(old(ring)@.len() as int) == old(ring)@,
        final(ring).spec_capacity() == old(ring).spec_capacity(),
{
    let events = events_of(parsed@);
    law_events_are_the_readable_records(parsed@, parsed@);
    crate::ring::law_offers_keep_order(old(ring)@, old(ring).spec_capacity(), events);
    assert(final(ring)@.take(old(ring)@.len() as int) =~= old(ring)@);
    if old(ring)@.len() + count < old(ring).spec_capacity() {
        assert forall|i: int| 0 <= i < parsed@.len() && (#[trigger] parsed@[i]) is Some implies
            final(ring)@[old(ring)@.len() as int + readable_among(parsed@.take(i))] == parsed@[i]->Some_0 by {
            law_event_of_each_record(parsed@, i);
        }
    }
}

/// A line is read as an event where it can be, as a bus message where that alone can be, and as
/// nothing only where neither can be.
pub proof fn law_line_is_read_one_way(
    direct: Option<MidiEvent>,
    message: Option<CnsMidiMessage>,
    event: Option<MidiEvent>,
)
    requires
        call_ensures(parse_midi_line, (direct, message), event),
    ensures
        direct is Some ==> event == direct,
        direct is None && message is Some ==> event is Some && event->Some_0.note
            == message->Some_0.pitch && event->Some_0.velocity == message->Some_0.velocity
            && event->Some_0.channel == message->Some_0.channel && event->Some_0.timestamp_us
            == message->Some_0.timestamp_us,
        event is None <==> direct is None && message is None,
{
}

/// The files are read in the order of their names, each once, and no other: of two spool files
/// whose names first differ in a byte, the one with the smaller byte stands first, and one whose
/// name goes on from another's stands behind it.
pub proof fn law_spool_files_are_listed_by_name(
    names: &Vec<Vec<u8>>,
    order: Vec<usize>,
    earlier: int,
    later: int,
    common: Seq<u8>,
    a: Seq<u8>,
    b: Seq<u8>,
)
    requires
        call_ensures(spool_order, (names,), order),
        0 <= earlier < names@.len(),
        0 <= later < names@.len(),
        names@[earlier]@ == common + a,
        names@[later]@ == common + b,
        is_spool_name(common + a),
        is_spool_name(common + b),
        b.len() > 0,
        a.len() == 0 || a[0] < b[0],
    ensures
        exists|i: int, j: int|
            0 <= i < j < order@.len() && #[trigger] order@[i] == earlier && #[trigger] order@[j]
                == later,
        forall|i: int| 0 <= i < order@.len() ==> is_spool_name(names@[#[trigger] order@[i] as int]@),
        order@.no_duplicates(),
{
    assert(names.len() == names@.len());
    assert(is_spool_name(names@[earlier]@) && is_spool_name(names@[later]@));
    assert(order@.contains(earlier as usize) && order@.contains(later as usize));
    let i = choose|i: int| 0 <= i < order@.len() && order@[i] == earlier as usize;
    let j = choose|j: int| 0 <= j < order@.len() && order@[j] == later as usize;
    law_names_are_ordered_as_words(common, a, b);
    if a.len() == 0 {
        assert(common + a =~= common);
    }
    if j < i {
        assert(name_le(names@[order@[j] as int]@, names@[order@[i] as int]@));
        assert(false);
    }
    if i == j {
        assert(common + a == common + b);
        law_names_are_ordered(common + a, common + b, common);
        assert(false);
    }
    assert(0 <= i < j < order@.len() && order@[i] == earlier && order@[j] == later);
}

} // verus!
