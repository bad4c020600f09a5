use fleet_audio::midi::MidiEvent;
use fleet_audio::ring::EventRing;

fn make_event(note: u8) -> MidiEvent {
    MidiEvent::note_on(0, note, 100, 0)
}

#[test]
fn push_pop_basic() {
    let mut ring = EventRing::new(16);
    assert!(ring.is_empty());

    let event = make_event(60);
    assert!(ring.push(event));

    assert!(!ring.is_empty());
    let popped = ring.pop();
    assert!(popped.is_some());
    assert_eq!(popped.unwrap().note, 60);
    assert!(ring.is_empty());
}

#[test]
fn fifo_ordering() {
    let mut ring = EventRing::new(64);
    for i in 0..10 {
        ring.push(make_event(i));
    }
    for i in 0..10 {
        let e = ring.pop().unwrap();
        assert_eq!(e.note, i);
    }
}

#[test]
fn ring_full_returns_false() {
    let mut ring = EventRing::new(8);
    // Capacity is 7 (one slot always empty to distinguish full from empty)
    for i in 0..7 {
        assert!(ring.push(make_event(i)));
    }
    // Next push should fail
    assert!(!ring.push(make_event(99)));
}

#[test]
fn drain_into_batch() {
    let mut ring = EventRing::new(64);
    for i in 0..20 {
        ring.push(make_event(i));
    }

    let mut buf = [MidiEvent::note_off(0, 0, 0); 32];
    let count = ring.drain_into(&mut buf);
    assert_eq!(count, 20);
    for i in 0..20 {
        assert_eq!(buf[i].note, i as u8);
    }
}

#[test]
fn capacity_rounds_to_power_of_two() {
    let ring = EventRing::new(100);
    assert_eq!(ring.capacity(), 128); // next power of 2
}

#[test]
fn wraparound() {
    let mut ring = EventRing::new(4); // real capacity = 3
    // Fill, drain, refill — exercises wraparound
    for cycle in 0..10 {
        for i in 0..3 {
            let note = (cycle * 3 + i) as u8;
            assert!(ring.push(make_event(note)));
        }
        let mut buf = [MidiEvent::note_off(0, 0, 0); 4];
        let count = ring.drain_into(&mut buf);
        assert_eq!(count, 3);
    }
}

#[test]
fn len_tracks_count() {
    let mut ring = EventRing::new(16);
    assert_eq!(ring.len(), 0);
    ring.push(make_event(1));
    ring.push(make_event(2));
    assert_eq!(ring.len(), 2);
    ring.pop();
    assert_eq!(ring.len(), 1);
    ring.pop();
    assert_eq!(ring.len(), 0);
}

#[test]
fn every_capacity_rounds_as_std_does() {
    for n in 0..300usize {
        assert_eq!(EventRing::new(n).capacity(), n.next_power_of_two());
    }
}

#[test]
fn one_slot_ring_takes_nothing() {
    let mut ring = EventRing::new(1);
    assert_eq!(ring.capacity(), 1);
    assert!(!ring.push(make_event(1)));
    assert!(ring.is_empty());
    assert!(ring.pop().is_none());
}

#[test]
fn full_ring_keeps_the_oldest() {
    let mut ring = EventRing::new(4);
    for i in 0..6 {
        ring.push(make_event(i));
    }
    assert_eq!(ring.len(), 3);
    assert_eq!(ring.pop().unwrap().note, 0);
    assert_eq!(ring.pop().unwrap().note, 1);
    assert_eq!(ring.pop().unwrap().note, 2);
    assert!(ring.pop().is_none());
}

#[test]
fn push_all_reports_what_fitted() {
    let mut ring = EventRing::new(4);
    ring.push(make_event(9));
    let events = [make_event(1), make_event(2), make_event(3)];
    assert_eq!(ring.push_all(&events), 2);
    assert_eq!(ring.pop().unwrap().note, 9);
    assert_eq!(ring.pop().unwrap().note, 1);
    assert_eq!(ring.pop().unwrap().note, 2);
    assert_eq!(ring.push_all(&[]), 0);
}

#[test]
fn short_drains_compose() {
    let mut ring = EventRing::new(16);
    for i in 0..10 {
        ring.push(make_event(i));
    }
    let mut first = [make_event(99); 4];
    let mut second = [make_event(98); 8];
    assert_eq!(ring.drain_into(&mut first), 4);
    assert_eq!(ring.drain_into(&mut second), 6);
    for i in 0..4 {
        assert_eq!(first[i].note, i as u8);
    }
    for i in 0..6 {
        assert_eq!(second[i].note, 4 + i as u8);
    }
    assert_eq!(second[6].note, 98);
    assert_eq!(second[7].note, 98);
}
