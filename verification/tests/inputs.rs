//! Spool, HTTP, dials, live output, WAV progress and text.

use fleet_audio::feel::DialsReadings;
use fleet_audio::io::dials_poller::{
    guard_reading, parse_http_url, request, BodyRead, ResponseHead, UrlError,
};
use fleet_audio::io::http_server::{
    handle_cns, handle_health, handle_midi, handle_status, status_word, MidiPayload, Reply,
    StatusResponse,
};
use fleet_audio::io::jsonl_spool::{
    is_spool_file, parse_midi_line, spool_order, spool_records, CnsMidiMessage, JsonlSpoolReader,
};
use fleet_audio::io::live_out::{LiveBuffer, MAX_BUFFERED};
use fleet_audio::midi::MidiEvent;
use fleet_audio::ring::EventRing;
use fleet_audio::text::{is_white_space, parse_number, string_of, trim, NumberError};
use fleet_audio::wav::{WavFormat, WavProgress};

fn chars(s: &str) -> Vec<char> {
    s.chars().collect()
}

#[test]
fn parse_http_url_splits_host_port_path() {
    let (host, port, path) = parse_http_url("http://127.0.0.1:4073/field").unwrap();
    assert_eq!(host, "127.0.0.1");
    assert_eq!(port, 4073);
    assert_eq!(path, "/field");
}

#[test]
fn parse_http_url_defaults_port_and_path() {
    let (host, port, path) = parse_http_url("http://elephant.local").unwrap();
    assert_eq!(host, "elephant.local");
    assert_eq!(port, 80);
    assert_eq!(path, "/");
}

#[test]
fn parse_http_url_rejects_non_http() {
    assert!(parse_http_url("https://127.0.0.1:4073/field").is_err());
}

#[test]
fn urls_at_the_edges() {
    let parts = |url: &str| parse_http_url(url);
    let ok = |h: &str, p: u16, s: &str| Ok((h.to_string(), p, s.to_string()));
    assert_eq!(parts("http://h:1/a:2/b"), ok("h", 1, "/a:2/b"));
    assert_eq!(parts("http://h/x"), ok("h", 80, "/x"));
    assert_eq!(parts("http://h:8080"), ok("h", 8080, "/"));
    assert_eq!(parts("http://[::1]:9/"), ok("[::1]", 9, "/"));
    assert_eq!(parts("http://"), ok("", 80, "/"));
    assert_eq!(parts("http://é:65535/ü"), ok("é", 65535, "/ü"));
    assert_eq!(parts("http://h:+7"), ok("h", 7, "/"));
    assert_eq!(parts("HTTP://h"), Err(UrlError::UnsupportedScheme));
    assert_eq!(parts("http:/"), Err(UrlError::UnsupportedScheme));
    assert_eq!(parts("http://h:/"), Err(UrlError::InvalidPort(NumberError::Empty)));
    assert_eq!(parts("http://h:x"), Err(UrlError::InvalidPort(NumberError::InvalidDigit)));
    assert_eq!(parts("http://h:65536"), Err(UrlError::InvalidPort(NumberError::Overflow)));
}

#[test]
fn numbers_read_as_std_reads_them() {
    let texts = [
        "", "0", "7", "007", "+", "-", "+5", "-5", "++5", "65535", "65536", "99999", "6553x",
        "65536x", "655x99999", "1 ", " 1", "é", "1é", "4294967295", "+65536",
    ];
    for text in texts {
        let ours = parse_number(&chars(text), u16::MAX as usize);
        match (ours, text.parse::<u16>()) {
            (Ok(a), Ok(b)) => assert_eq!(a, b as usize, "{text}"),
            (Err(a), Err(b)) => {
                let b = match b.kind() {
                    std::num::IntErrorKind::Empty => NumberError::Empty,
                    std::num::IntErrorKind::PosOverflow => NumberError::Overflow,
                    _ => NumberError::InvalidDigit,
                };
                assert_eq!(a, b, "{text}");
            }
            (a, b) => panic!("{text}: {a:?} {b:?}"),
        }
    }
    let max = format!("{}", usize::MAX);
    assert_eq!(parse_number(&chars(&max), usize::MAX), Ok(usize::MAX));
    let more = format!("{max}0");
    assert_eq!(parse_number(&chars(&more), usize::MAX), Err(NumberError::Overflow));
}

#[test]
fn white_space_is_that_of_std() {
    for code in 0..=0x10FFFFu32 {
        if let Some(c) = char::from_u32(code) {
            assert_eq!(is_white_space(c), c.is_whitespace(), "{code:x}");
        }
    }
}

#[test]
fn trimming_is_that_of_std() {
    for text in ["", " ", "a", " a ", "\t\r\n a b \u{3000}", "\u{85}x\u{2028}", "ab"] {
        assert_eq!(string_of(&trim(&chars(text))), text.trim());
    }
}

#[test]
fn request_text() {
    assert_eq!(
        request("h.local", "/field"),
        "GET /field HTTP/1.1\r\nHost: h.local\r\nConnection: close\r\nAccept: application/json\r\n\r\n"
    );
}

fn body_of(lines: &[&str]) -> Option<BodyRead> {
    let mut head = ResponseHead::new();
    for line in lines {
        if let Some(body) = head.read_line(line) {
            return Some(body);
        }
    }
    None
}

#[test]
fn response_heads() {
    let status = "HTTP/1.1 200 OK\r\n";
    assert_eq!(body_of(&[status, "\r\n"]), Some(BodyRead::ToEnd));
    assert_eq!(body_of(&[status, "\n"]), Some(BodyRead::ToEnd));
    assert_eq!(body_of(&[""]), Some(BodyRead::ToEnd));
    assert_eq!(body_of(&[status]), None);
    assert_eq!(body_of(&[status, "Content-Length: 42\r\n", "\r\n"]), Some(BodyRead::Exact(42)));
    assert_eq!(body_of(&["content-length:7\n", ""]), Some(BodyRead::Exact(7)));
    assert_eq!(body_of(&["CONTENT-LENGTH: 7\r\n", "\n"]), Some(BodyRead::ToEnd));
    // The last header counts, and one without a number takes the length back.
    let two = ["Content-Length: 1\r\n", "content-length: 2\r\n", "X: 3\r\n", "\r\n"];
    assert_eq!(body_of(&two), Some(BodyRead::Exact(2)));
    let bad = ["Content-Length: 1\r\n", "Content-Length: many\r\n", "\r\n"];
    assert_eq!(body_of(&bad), Some(BodyRead::ToEnd));
}

fn guard(volume: f64, mood: f64) -> Option<DialsReadings<f32>> {
    guard_reading(volume, mood, |dial: f64| dial as f32, f32::is_finite)
}

#[test]
fn guard_reading_rejects_nan_and_infinite() {
    assert!(guard(f64::NAN, 0.0).is_none());
    assert!(guard(0.0, f64::NAN).is_none());
    assert!(guard(f64::INFINITY, 0.0).is_none());
    assert!(guard(0.0, f64::NEG_INFINITY).is_none());
    assert!(guard(1e300, 0.0).is_none());
}

#[test]
fn guard_reading_passes_finite_values() {
    let readings = guard(0.8, 0.5).expect("finite values should pass the guard");
    assert!((readings.volume - 0.8).abs() <= 1e-6);
    assert!((readings.mood - 0.5).abs() <= 1e-6);
}

fn field(value: &serde_json::Value, name: &str) -> Option<u64> {
    value.get(name)?.as_u64()
}

fn small_field(value: &serde_json::Value, name: &str) -> Option<u8> {
    u8::try_from(field(value, name)?).ok()
}

fn event_in(value: &serde_json::Value) -> Option<MidiEvent> {
    Some(MidiEvent {
        timestamp_us: field(value, "timestamp_us")?,
        channel: small_field(value, "channel")?,
        note: small_field(value, "note")?,
        velocity: small_field(value, "velocity")?,
    })
}

fn message_in(value: &serde_json::Value) -> Option<CnsMidiMessage> {
    let channel = match value.get("channel") {
        Some(_) => small_field(value, "channel")?,
        None => 0,
    };
    Some(CnsMidiMessage {
        timestamp_us: field(value, "timestamp_us")?,
        pitch: small_field(value, "pitch")?,
        velocity: small_field(value, "velocity")?,
        channel,
    })
}

fn read_line(line: &str) -> Option<MidiEvent> {
    let value: Option<serde_json::Value> = serde_json::from_str(line).ok();
    let direct = value.as_ref().and_then(event_in);
    let message = value.as_ref().and_then(message_in);
    parse_midi_line(direct, message)
}

#[test]
fn parse_direct_midi_event() {
    let json = r#"{"timestamp_us":1000,"channel":0,"note":60,"velocity":100}"#;
    let event = read_line(json).unwrap();
    assert_eq!(event.note, 60);
    assert_eq!(event.channel, 0);
    assert!(event.is_note_on());
}

#[test]
fn parse_cns_agent_played() {
    let json = r#"{"timestamp_us":2000,"pitch":64,"velocity":80,"channel":2}"#;
    let event = read_line(json).unwrap();
    assert_eq!(event.note, 64);
    assert_eq!(event.velocity, 80);
    assert_eq!(event.channel, 2);
}

#[test]
fn parse_invalid_line() {
    assert!(read_line("not json").is_none());
    assert!(read_line("").is_none());
}

#[test]
fn a_line_that_is_both_is_an_event() {
    let event = MidiEvent::note_on(1, 2, 3, 4);
    let message = CnsMidiMessage { timestamp_us: 9, pitch: 8, velocity: 7, channel: 6 };
    assert_eq!(parse_midi_line(Some(event), Some(message)), Some(event));
    assert_eq!(parse_midi_line(None, Some(message)), Some(MidiEvent::note_on(6, 8, 7, 9)));
    assert_eq!(parse_midi_line(None, None), None);
}

#[test]
fn records_are_the_lines_that_are_not_blank() {
    for content in ["", "\n", "a", "a\n", " a \r\n\r\n\tb\u{a0}\n \n c", "x\ry\n\u{3000}\nz"] {
        let expected: Vec<&str> =
            content.lines().map(|l| l.trim()).filter(|l| !l.is_empty()).collect();
        assert_eq!(spool_records(content), expected);
    }
}

#[test]
fn spool_files_by_name() {
    for name in ["a.jsonl", ".a.jsonl", "..jsonl", ".jsonl", "jsonl", "a.json", "a.jsonl.tmp", "a.JSONL", "b c.jsonl"] {
        let expected = std::path::Path::new(name).extension().is_some_and(|e| e == "jsonl");
        assert_eq!(is_spool_file(name.as_bytes()), expected, "{name}");
    }
}

#[test]
fn spool_order_is_by_name() {
    let names = ["b.jsonl", "a.jsonl", "note.txt", "a0.jsonl", "a.b.jsonl", "B.jsonl", "10.jsonl", "9.jsonl"];
    let bytes: Vec<Vec<u8>> = names.iter().map(|n| n.as_bytes().to_vec()).collect();
    let ordered: Vec<&str> = spool_order(&bytes).into_iter().map(|i| names[i]).collect();
    let mut expected: Vec<&str> = names.iter().cloned().filter(|n| n.ends_with(".jsonl")).collect();
    expected.sort();
    assert_eq!(ordered, expected);
    assert!(spool_order(&vec![]).is_empty());
}

#[test]
fn a_spool_file_fills_the_ring() {
    let reader = JsonlSpoolReader::new("/spool".to_string());
    assert_eq!(reader.spool_dir(), "/spool");
    let mut ring = EventRing::new(4);
    let on = MidiEvent::note_on(0, 60, 100, 0);
    let off = MidiEvent::note_off(0, 60, 1000);
    assert_eq!(reader.process_file(&mut ring, &[Some(on), None, Some(off)]), 2);
    assert_eq!(ring.len(), 2);
    // Events that find the ring full are counted and dropped.
    assert_eq!(reader.process_file(&mut ring, &[Some(off), Some(on)]), 2);
    assert_eq!(ring.len(), 3);
    assert_eq!((ring.pop(), ring.pop(), ring.pop(), ring.pop()), (Some(on), Some(off), Some(off), None));
}

#[test]
fn http_answers() {
    let mut ring = EventRing::new(4);
    let on = MidiEvent::note_on(0, 60, 100, 0);
    assert_eq!(handle_midi(&mut ring, &MidiPayload::Multiple(vec![])), Reply::ServiceUnavailable);
    assert_eq!(handle_midi(&mut ring, &MidiPayload::Single(on)), Reply::Accepted);
    let many = MidiPayload::Multiple(vec![on, on, on, on]);
    // Some fit, which is a success; then none does.
    assert_eq!(handle_midi(&mut ring, &many), Reply::Accepted);
    assert_eq!(handle_midi(&mut ring, &many), Reply::ServiceUnavailable);
    assert_eq!(handle_status(&ring, 5), StatusResponse { active_voices: 5, ring_len: 3, ring_capacity: 4 });
    let message = CnsMidiMessage { timestamp_us: 5, pitch: 61, velocity: 90, channel: 2 };
    assert_eq!(handle_cns(&mut ring, &message), Reply::ServiceUnavailable);
    ring.pop();
    assert_eq!(handle_cns(&mut ring, &message), Reply::Accepted);
    ring.pop();
    ring.pop();
    assert_eq!(ring.pop(), Some(MidiEvent::note_on(2, 61, 90, 5)));
    assert_eq!((Reply::Accepted.code(), Reply::ServiceUnavailable.code()), (200, 503));
    assert_eq!((handle_health(), status_word()), ("ok", "running"));
}

#[test]
fn live_output_plays_what_is_written() {
    let mut buffer = LiveBuffer::new();
    assert!(buffer.is_idle());
    buffer.write_chunk(&[1, 2, 3]);
    buffer.write_chunk(&[4]);
    let mut out = [9; 3];
    buffer.fill(&mut out, 0);
    assert_eq!(out, [1, 2, 3]);
    assert!(!buffer.is_idle());
    buffer.fill(&mut out, 0);
    assert_eq!(out, [4, 0, 0]);
    assert!(buffer.is_idle());
}

#[test]
fn live_output_drops_the_oldest() {
    let mut buffer = LiveBuffer::new();
    let chunk: Vec<usize> = (0..MAX_BUFFERED + 10).collect();
    buffer.write_chunk(&chunk);
    let mut out = vec![0; MAX_BUFFERED + 1];
    buffer.fill(&mut out, 7);
    assert_eq!(out[0], 10);
    assert_eq!(out[MAX_BUFFERED - 1], MAX_BUFFERED + 9);
    assert_eq!(out[MAX_BUFFERED], 7);
}

#[test]
fn wav_progress_counts_samples() {
    let mut progress = WavProgress::create(44_100);
    let format = WavFormat { channels: 1, sample_rate: 44_100, bits_per_sample: 16 };
    assert_eq!(progress.format(), format);
    for _ in 0..1000 {
        progress.chunk_written(1024);
    }
    assert_eq!(progress.samples_written(), 1_024_000);
    assert_eq!(progress.format(), format);
}
