//! Polling the room's dials: where to connect, what to ask, and how to read the head of the
//! answer.

use vstd::prelude::*;
use vstd::string::*;

use crate::feel::DialsReadings;
use crate::text::{
    chars_of, find_first, find_last, is_text, parse_number, part, starts_with, string_of, trim,
    NumberError,
};

verus! {

/// The port of an endpoint that names none.
pub const DEFAULT_PORT: u16 = 80;

/// Why an endpoint cannot be polled.
#[derive(Debug, Clone, Copy, PartialEq, Eq, Structural)]
pub enum UrlError {
    /// Only plain HTTP is supported.
    UnsupportedScheme,
    /// The port is not a number that fits.
    InvalidPort(NumberError),
}

/// The host, port and path of an endpoint.
pub struct Endpoint {
    pub host: Seq<char>,
    pub port: int,
    pub path: Seq<char>,
}

/// The parts of the URL `http://host[:port][/path]`: the authority ends at the first slash,
/// where the path begins, and the port follows the last colon of the authority.
pub open spec fn url_parts(url: Seq<char>) -> Result<Endpoint, UrlError> {
    if !"http://"@.is_prefix_of(url) {
        Err(UrlError::UnsupportedScheme)
    } else {
        let rest = url.skip("http://"@.len() as int);
        let slash = crate::text::first_of(rest, '/');
        let authority = rest.take(slash);
        let path = if slash == rest.len() {
            "/"@
        } else {
            rest.skip(slash)
        };
        let colon = crate::text::last_of(authority, ':');
        if colon < 0 {
            Ok(Endpoint { host: authority, port: DEFAULT_PORT as int, path })
        } else {
            match crate::text::number_value(authority.skip(colon + 1), u16::MAX as int) {
                Ok(port) => Ok(Endpoint { host: authority.take(colon), port, path }),
                Err(error) => Err(UrlError::InvalidPort(error)),
            }
        }
    }
}

/// Split an `http://host[:port][/path]` URL into host, port and path. The port defaults to
/// 80 and the path to `/`.
pub fn parse_http_url(url: &str) -> (parts: Result<(String, u16, String), UrlError>)
    ensures
        match parts {
            Ok((host, port, path)) => url_parts(url@) == Ok::<Endpoint, UrlError>(
                Endpoint { host: host@, port: port as int, path: path@ },
            ),
            Err(error) => url_parts(url@) == Err::<Endpoint, UrlError>(error),
        },
{
    let chars: Vec<char> = chars_of(url);
    if !starts_with(chars.as_slice(), "http://") {
        return Err(UrlError::UnsupportedScheme);
    }
    proof {
        reveal_strlit("http://");
    }
    let rest: Vec<char> = part(chars.as_slice(), 7, chars.len());
    assert(rest@ =~= url@.skip("http://"@.len() as int));
    let slash: usize = find_first(rest.as_slice(), '/');
    let authority: Vec<char> = part(rest.as_slice(), 0, slash);
    assert(authority@ =~= rest@.take(slash as int));
    let path: String = if slash == rest.len() {
        "/".to_owned()
    } else {
        let tail: Vec<char> = part(rest.as_slice(), slash, rest.len());
        assert(tail@ =~= rest@.skip(slash as int));
        string_of(tail.as_slice())
    };
    match find_last(authority.as_slice(), ':') {
        None => Ok((string_of(authority.as_slice()), DEFAULT_PORT, path)),
        Some(colon) => {
            let host: Vec<char> = part(authority.as_slice(), 0, colon);
            let port: Vec<char> = part(authority.as_slice(), colon + 1, authority.len());
            assert(host@ =~= authority@.take(colon as int));
            assert(port@ =~= authority@.skip(colon + 1));
            match parse_number(port.as_slice(), u16::MAX as usize) {
                Ok(n) => {
                    proof {
                        lemma_port_fits(port@);
                    }
                    Ok((string_of(host.as_slice()), n as u16, path))
                },
                Err(error) => Err(UrlError::InvalidPort(error)),
            }
        },
    }
}

/// A number that was read is within its bounds.
proof fn lemma_port_fits(s: Seq<char>)
    ensures
        crate::text::number_value(s, u16::MAX as int) matches Ok(n) ==> 0 <= n <= u16::MAX,
{
    crate::text::lemma_digits_bounds(s, u16::MAX as int);
    if s.len() > 0 {
        crate::text::lemma_digits_bounds(s.drop_first(), u16::MAX as int);
    }
}

/// The request for `path` at `host`.
pub open spec fn request_text(host: Seq<char>, path: Seq<char>) -> Seq<char> {
    "GET "@ + path + " HTTP/1.1\r\nHost: "@ + host
        + "\r\nConnection: close\r\nAccept: application/json\r\n\r\n"@
}

/// The text of the request for `path` at `host`.
pub fn request(host: &str, path: &str) -> (text: String)
    ensures
        text@ == request_text(host@, path@),
{
    let mut text: String = "GET ".to_owned();
    text.append(path);
    text.append(" HTTP/1.1\r\nHost: ");
    text.append(host);
    text.append("\r\nConnection: close\r\nAccept: application/json\r\n\r\n");
    text
}

/// How the body of an answer is to be read.
#[derive(Debug, Clone, Copy, PartialEq, Eq, Structural)]
pub enum BodyRead {
    /// Exactly so many bytes.
    Exact(usize),
    /// All that comes.
    ToEnd,
}

/// Does `line` end the head of an answer? An empty line does, and so does the end of the
/// input, which reads as no characters at all.
pub open spec fn ends_head(line: Seq<char>) -> bool {
    line == ""@ || line == "\r\n"@ || line == "\n"@
}

/// The value of a content length header, or `None` for any other line.
pub open spec fn content_length_field(line: Seq<char>) -> Option<Seq<char>> {
    if "Content-Length:"@.is_prefix_of(line) {
        Some(line.skip("Content-Length:"@.len() as int))
    } else if "content-length:"@.is_prefix_of(line) {
        Some(line.skip("content-length:"@.len() as int))
    } else {
        None
    }
}

/// The content length that the lines up to and including `line` announce, where those
/// before announce `before`: the last header counts, and one that holds no number announces
/// nothing.
pub open spec fn announced(before: Option<int>, line: Seq<char>) -> Option<int> {
    match content_length_field(line) {
        Some(value) => match crate::text::number_value(
            crate::text::trimmed(value),
            usize::MAX as int,
        ) {
            Ok(n) => Some(n),
            Err(_) => None,
        },
        None => before,
    }
}

/// The head of an answer, as far as it was read.
#[derive(Debug, Clone, Copy, PartialEq, Eq, Structural)]
pub struct ResponseHead {
    content_length: Option<usize>,
}

impl ResponseHead {
    /// The content length announced so far.
    pub closed spec fn length(&self) -> Option<int> {
        match self.content_length {
            Some(n) => Some(n as int),
            None => None,
        }
    }

    /// A head of which nothing was read.
    pub fn new() -> (head: ResponseHead)
        ensures
            head.length() is None,
    {
        ResponseHead { content_length: None }
    }

    /// Take in the next line of the head, with its line end. Returns how to read the body
    /// if the head ends with this line, and `None` if there is another line to read.
    pub fn read_line(&mut self, line: &str) -> (body: Option<BodyRead>)
        ensures
            ends_head(line@) ==> *final(self) == *old(self) && match old(self).length() {
                Some(n) => body matches Some(BodyRead::Exact(len)) && len == n,
                None => body == Some(BodyRead::ToEnd),
            },
            !ends_head(line@) ==> body is None && final(self).length() == announced(
                old(self).length(),
                line@,
            ),
    {
        let chars: Vec<char> = chars_of(line);
        if is_text(chars.as_slice(), "") || is_text(chars.as_slice(), "\r\n") || is_text(
            chars.as_slice(),
            "\n",
        ) {
            return match self.content_length {
                Some(n) => Some(BodyRead::Exact(n)),
                None => Some(BodyRead::ToEnd),
            };
        }
        proof {
            reveal_strlit("Content-Length:");
            reveal_strlit("content-length:");
        }
        if starts_with(chars.as_slice(), "Content-Length:") || starts_with(
            chars.as_slice(),
            "content-length:",
        ) {
            let value: Vec<char> = part(chars.as_slice(), 15, chars.len());
            assert(value@ =~= line@.skip(15));
            let digits: Vec<char> = trim(value.as_slice());
            self.content_length = match parse_number(digits.as_slice(), usize::MAX) {
                Ok(n) => Some(n),
                Err(_) => None,
            };
        }
        None
    }
}

/// What is found of a reading of the dials: as it is narrowed, and whether each of its narrowed
/// dials is finite.
pub open spec fn is_judged<V, E>(
    volume: V,
    mood: V,
    narrow: spec_fn(V, E) -> bool,
    is_finite: spec_fn(E, bool) -> bool,
    reading: DialsReadings<E>,
    volume_finite: bool,
    mood_finite: bool,
) -> bool {
    &&& narrow(volume, reading.volume)
    &&& narrow(mood, reading.mood)
    &&& is_finite(reading.volume, volume_finite)
    &&& is_finite(reading.mood, mood_finite)
}

/// A glitch upstream must not become a movement downstream: a reading passes, narrowed to
/// energies, only if both of its dials are finite then.
pub fn guard_reading<V, E: Copy, N: Fn(V) -> E, F: Fn(E) -> bool>(
    volume: V,
    mood: V,
    narrow: N,
    is_finite: F,
) -> (guarded: Option<DialsReadings<E>>)
    requires
        forall|v: V| call_requires(narrow, (v,)),
        forall|e: E| call_requires(is_finite, (e,)),
    ensures
        exists|reading: DialsReadings<E>, volume_finite: bool, mood_finite: bool|
            #[trigger] is_judged(
                volume,
                mood,
                crate::relation::unary(narrow),
                crate::relation::unary(is_finite),
                reading,
                volume_finite,
                mood_finite,
            ) && guarded == (if volume_finite && mood_finite {
                Some(reading)
            } else {
                None
            }),
{
    let reading = DialsReadings::new(narrow(volume), narrow(mood));
    let volume_finite = is_finite(reading.volume);
    let mood_finite = is_finite(reading.mood);
    assert(is_judged(
        volume,
        mood,
        crate::relation::unary(narrow),
        crate::relation::unary(is_finite),
        reading,
        volume_finite,
        mood_finite,
    ));
    if !volume_finite || !mood_finite {
        return None;
    }
    Some(reading)
}

/// The content length that a sequence of header lines announces.
pub open spec fn announced_by(lines: Seq<Seq<char>>) -> Option<int>
    decreases lines.len(),
{
    if lines.len() == 0 {
        None
    } else {
        announced(announced_by(lines.drop_last()), lines.last())
    }
}

/// The last content length header counts, wherever it stands: lines that are none, after
/// it, change nothing.
pub proof fn law_last_length_counts(
    before: Seq<Seq<char>>,
    header: Seq<char>,
    after: Seq<Seq<char>>,
)
    requires
        content_length_field(header) is Some,
        forall|i: int| 0 <= i < after.len() ==> content_length_field(#[trigger] after[i]) is None,
    ensures
        announced_by(before.push(header) + after) == announced(None, header),
    decreases after.len(),
{
    let lines = before.push(header) + after;
    if after.len() == 0 {
        assert(lines =~= before.push(header));
        assert(lines.drop_last() =~= before);
    } else {
        let init = after.drop_last();
        assert forall|i: int| 0 <= i < init.len() implies content_length_field(
            #[trigger] init[i],
        ) is None by {
            assert(init[i] == after[i]);
        }
        law_last_length_counts(before, header, init);
        assert(lines.drop_last() =~= before.push(header) + init);
        assert(lines.last() == after[after.len() - 1]);
    }
}

/// The path of a URL that ends in `path`: `/` if it ends without one.
pub open spec fn path_or_root(path: Seq<char>) -> Seq<char> {
    if path.len() == 0 {
        "/"@
    } else {
        path
    }
}

/// The authority of a URL is what stands between the scheme and the path.
proof fn lemma_authority(authority: Seq<char>, path: Seq<char>)
    requires
        !authority.contains('/'),
        path.len() > 0 ==> path.first() == '/',
    ensures
        ({
            let url = "http://"@ + authority + path;
            let rest = url.skip("http://"@.len() as int);
            let slash = crate::text::first_of(rest, '/');
            &&& "http://"@.is_prefix_of(url)
            &&& rest.take(slash) == authority
            &&& slash == rest.len() <==> path.len() == 0
            &&& rest.skip(slash) == path
        }),
{
    reveal_strlit("http://");
    let scheme = "http://"@;
    let url = scheme + authority + path;
    assert(scheme =~= url.subrange(0, scheme.len() as int));
    let rest = url.skip(scheme.len() as int);
    assert(rest =~= authority + path);
    assert forall|j: int| 0 <= j < authority.len() implies #[trigger] rest[j] != '/' by {
        assert(rest[j] == authority[j]);
    }
    if path.len() > 0 {
        assert(rest[authority.len() as int] == path[0]);
    }
    crate::text::lemma_first_of(rest, '/', authority.len() as int);
    assert(rest.take(authority.len() as int) =~= authority);
    assert(rest.skip(authority.len() as int) =~= path);
}

/// Writing an endpoint as a URL and splitting the URL gives the endpoint back: a host
/// without a slash, a port in decimal digits, and a path that starts with a slash or is left
/// out.
pub proof fn law_url_round_trip(host: Seq<char>, digits: Seq<char>, path: Seq<char>)
    requires
        !host.contains('/'),
        digits.len() > 0,
        forall|i: int| 0 <= i < digits.len() ==> crate::text::is_digit(#[trigger] digits[i]),
        crate::text::decimal(digits) <= u16::MAX,
        path.len() > 0 ==> path.first() == '/',
    ensures
        url_parts("http://"@ + (host + seq![':'] + digits) + path) == Ok::<Endpoint, UrlError>(
            Endpoint { host, port: crate::text::decimal(digits), path: path_or_root(path) },
        ),
{
    let authority = host + seq![':'] + digits;
    assert forall|j: int| 0 <= j < authority.len() implies #[trigger] authority[j] != '/' by {
        if j < host.len() {
            assert(authority[j] == host[j]);
        } else if j > host.len() {
            assert(authority[j] == digits[j - host.len() - 1]);
        }
    }
    lemma_authority(authority, path);
    assert forall|j: int| host.len() < j < authority.len() implies #[trigger] authority[j] != ':' by {
        assert(authority[j] == digits[j - host.len() - 1]);
    }
    crate::text::lemma_last_of(authority, ':', host.len() as int);
    assert(authority.take(host.len() as int) =~= host);
    assert(authority.skip(host.len() as int + 1) =~= digits);
    crate::text::law_digits_are_decimal(digits, u16::MAX as int);
    assert(crate::text::is_digit(digits[0]));
}

/// An endpoint without a port is at port 80, and one without a path at `/`.
pub proof fn law_url_defaults(host: Seq<char>, path: Seq<char>)
    requires
        !host.contains('/'),
        !host.contains(':'),
        path.len() > 0 ==> path.first() == '/',
    ensures
        url_parts("http://"@ + host + path) == Ok::<Endpoint, UrlError>(
            Endpoint { host, port: 80, path: path_or_root(path) },
        ),
{
    lemma_authority(host, path);
    crate::text::lemma_last_of(host, ':', -1);
}

/// Only plain HTTP is polled, and a port has to be a number that fits: whatever else stands in
/// its place, the endpoint is refused for what is wrong with the number.
pub proof fn law_url_refusals(url: Seq<char>, host: Seq<char>, port: Seq<char>, path: Seq<char>)
    requires
        !host.contains('/'),
        !port.contains('/'),
        !port.contains(':'),
        path.len() > 0 ==> path.first() == '/',
    ensures
        !"http://"@.is_prefix_of(url) ==> url_parts(url) == Err::<Endpoint, UrlError>(
            UrlError::UnsupportedScheme,
        ),
        url_parts("http://"@ + (host + seq![':'] + port) + path) == (
        match crate::text::number_value(port, 65_535) {
            Ok(number) => Ok::<Endpoint, UrlError>(
                Endpoint { host, port: number, path: path_or_root(path) },
            ),
            Err(error) => Err(UrlError::InvalidPort(error)),
        }),
{
    let authority = host + seq![':'] + port;
    assert forall|j: int| 0 <= j < authority.len() implies #[trigger] authority[j] != '/' by {
        if j < host.len() {
            assert(authority[j] == host[j]);
        } else if j > host.len() {
            assert(authority[j] == port[j - host.len() - 1]);
        }
    }
    lemma_authority(authority, path);
    assert forall|j: int| host.len() < j < authority.len() implies #[trigger] authority[j] != ':' by {
        assert(authority[j] == port[j - host.len() - 1]);
    }
    crate::text::lemma_last_of(authority, ':', host.len() as int);
    assert(authority.take(host.len() as int) =~= host);
    assert(authority.skip(host.len() as int + 1) =~= port);
}

/// The head of an answer ends with a line without text, or with the input.
pub proof fn law_head_ends_with_an_empty_line(line: Seq<char>)
    ensures
        ends_head(line) <==> line.len() == 0 || (line.len() == 1 && line[0] == '\n') || (line.len()
            == 2 && line[0] == '\r' && line[1] == '\n'),
{
    reveal_strlit("");
    reveal_strlit("\n");
    reveal_strlit("\r\n");
    if line.len() == 0 {
        assert(line =~= ""@);
    }
    if line.len() == 1 && line[0] == '\n' {
        assert(line =~= "\n"@);
    }
    if line.len() == 2 && line[0] == '\r' && line[1] == '\n' {
        assert(line =~= "\r\n"@);
    }
}

/// A content length header announces the number that it holds, whatever was announced before and
/// however much white space is around the digits; one that holds no number that fits takes back
/// what was announced. Any other line changes nothing.
pub proof fn law_header_announces_its_number(
    before: Option<int>,
    name: Seq<char>,
    left: Seq<char>,
    digits: Seq<char>,
    right: Seq<char>,
)
    requires
        name == "Content-Length:"@ || name == "content-length:"@,
        crate::text::blank(left),
        crate::text::blank(right),
        digits.len() > 0 ==> !crate::text::white_space(digits.first())
            && !crate::text::white_space(digits.last()),
    ensures
        announced(before, name + (left + digits + right)) == (match crate::text::number_value(
            digits,
            usize::MAX as int,
        ) {
            Ok(n) => Some(n),
            Err(_) => None,
        }),
        forall|line: Seq<char>|
            !"Content-Length:"@.is_prefix_of(line) && !"content-length:"@.is_prefix_of(line)
                ==> #[trigger] announced(before, line) == before,
{
    reveal_strlit("Content-Length:");
    reveal_strlit("content-length:");
    let value = left + digits + right;
    let line = name + value;
    assert(name =~= line.subrange(0, name.len() as int));
    assert(line.skip(15) =~= value);
    if name == "content-length:"@ {
        assert(line[0] == 'c');
        assert("Content-Length:"@[0] == 'C');
        if "Content-Length:"@.is_prefix_of(line) {
            assert("Content-Length:"@ =~= line.subrange(0, 15));
            assert("Content-Length:"@[0] == line.subrange(0, 15)[0]);
        }
    }
    crate::text::law_trim_finds_the_text(left, digits, right);
}

/// A reading is judged by both of its dials as they are narrowed, each for itself.
pub proof fn law_both_dials_are_judged<V, E>(
    volume: V,
    mood: V,
    narrow: spec_fn(V, E) -> bool,
    is_finite: spec_fn(E, bool) -> bool,
    narrowed: spec_fn(V) -> E,
    finite: spec_fn(E) -> bool,
    reading: DialsReadings<E>,
    volume_finite: bool,
    mood_finite: bool,
)
    requires
        is_judged(volume, mood, narrow, is_finite, reading, volume_finite, mood_finite),
        forall|v: V, e: E| #[trigger] narrow(v, e) ==> e == narrowed(v),
        forall|e: E, r: bool| #[trigger] is_finite(e, r) ==> r == finite(e),
    ensures
        reading.volume == narrowed(volume),
        reading.mood == narrowed(mood),
        volume_finite == finite(narrowed(volume)),
        mood_finite == finite(narrowed(mood)),
{
}

/// An answer is read as long as it says: after a content length header that holds a number, the
/// empty line asks for exactly so many bytes; after one that holds none, and without any, for all
/// that comes.
pub proof fn law_head_tells_how_to_read(
    first: &mut ResponseHead,
    header: &str,
    after_header: Option<BodyRead>,
    second: &mut ResponseHead,
    end: &str,
    body: Option<BodyRead>,
)
    requires
        call_ensures(ResponseHead::read_line, (first, header), after_header),
        *old(second) == *final(first),
        call_ensures(ResponseHead::read_line, (second, end), body),
        content_length_field(header@) is Some,
        end@ == "\r\n"@ || end@ == "\n"@ || end@ == ""@,
    ensures
        after_header is None,
        ({
            let value = crate::text::trimmed(content_length_field(header@)->Some_0);
            match crate::text::number_value(value, usize::MAX as int) {
                Ok(n) => body matches Some(BodyRead::Exact(len)) && len == n,
                Err(_) => body == Some(BodyRead::ToEnd),
            }
        }),
{
    law_head_ends_with_an_empty_line(header@);
    law_head_ends_with_an_empty_line(end@);
    reveal_strlit("");
    reveal_strlit("\n");
    reveal_strlit("\r\n");
    reveal_strlit("Content-Length:");
    reveal_strlit("content-length:");
}

/// A reading passes the guard exactly if both dials are finite as they are narrowed, and passes as
/// just that.
pub proof fn law_guard_lets_finite_readings_pass<
    V,
    E: Copy,
    N: Fn(V) -> E,
    F: Fn(E) -> bool,
>(
    volume: V,
    mood: V,
    narrow: N,
    is_finite: F,
    narrowed: spec_fn(V) -> E,
    finite: spec_fn(E) -> bool,
    guarded: Option<DialsReadings<E>>,
)
    requires
        call_ensures(guard_reading::<V, E, N, F>, (volume, mood, narrow, is_finite), guarded),
        forall|v: V, e: E| #[trigger] call_ensures(narrow, (v,), e) ==> e == narrowed(v),
        forall|e: E, r: bool| #[trigger] call_ensures(is_finite, (e,), r) ==> r == finite(e),
    ensures
        guarded is Some <==> finite(narrowed(volume)) && finite(narrowed(mood)),
        guarded matches Some(reading) ==> reading.volume == narrowed(volume) && reading.mood
            == narrowed(mood),
{
}

} // verus!
