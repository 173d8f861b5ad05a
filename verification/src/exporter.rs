//! The metrics exporter's decisions: what its command line asks for, the
//! path of an HTTP request, the answer for a path and the response text.
//! Reading the command line and the environment, and the sockets, are the
//! caller's.

use vstd::prelude::*;
use vstd::string::{StrSliceExecFns, StringExecFns, StringSliceAdditionalSpecFns};
use crate::metrics::{append_decimal, decimal};

verus! {

/// Port served when none is given.
pub const DEFAULT_PORT: u16 = 9091;

/// `c` is white space in Unicode's sense (`char::is_whitespace`).
pub open spec fn is_white(c: char) -> bool {
    let n = c as u32;
    n == 0x20 || (0x09 <= n && n <= 0x0d) || n == 0x85 || n == 0xa0 || n == 0x1680
        || (0x2000 <= n && n <= 0x200a) || n == 0x2028 || n == 0x2029 || n == 0x202f
        || n == 0x205f || n == 0x3000
}

/// Whether `c` is white space.
fn white(c: char) -> (r: bool)
    ensures
        r == is_white(c),
{
    let n = c as u32;
    n == 0x20 || (0x09 <= n && n <= 0x0d) || n == 0x85 || n == 0xa0 || n == 0x1680
        || (0x2000 <= n && n <= 0x200a) || n == 0x2028 || n == 0x2029 || n == 0x202f
        || n == 0x205f || n == 0x3000
}

/// Index of the first `'\n'` of `s` at or after `i`, or the length of `s`.
pub open spec fn line_end_from(s: Seq<char>, i: int) -> int
    decreases s.len() - i,
{
    if i >= s.len() {
        s.len() as int
    } else if s[i] == '\n' {
        i
    } else {
        line_end_from(s, i + 1)
    }
}

/// First index of `s` from `i` on, below `end`, that is not white space;
/// `end` if there is none.
pub open spec fn skip_white(s: Seq<char>, i: int, end: int) -> int
    decreases end - i,
{
    if i >= end {
        end
    } else if !is_white(s[i]) {
        i
    } else {
        skip_white(s, i + 1, end)
    }
}

/// First index of `s` from `i` on, below `end`, that is white space;
/// `end` if there is none.
pub open spec fn skip_word(s: Seq<char>, i: int, end: int) -> int
    decreases end - i,
{
    if i >= end {
        end
    } else if is_white(s[i]) {
        i
    } else {
        skip_word(s, i + 1, end)
    }
}

/// Where the path of the HTTP request `s` lies: the second white-space
/// separated word of its first line, if it has one.
pub open spec fn request_path_span(s: Seq<char>) -> Option<(int, int)> {
    let e = line_end_from(s, 0);
    let a = skip_word(s, skip_white(s, 0, e), e);
    let b = skip_white(s, a, e);
    if b < e {
        Some((b, skip_word(s, b, e)))
    } else {
        None
    }
}

/// The path of the HTTP request `s`; `/` when its first line has no second
/// word.
pub open spec fn request_path_of(s: Seq<char>) -> Seq<char> {
    match request_path_span(s) {
        Some((a, b)) => s.subrange(a, b),
        None => "/"@,
    }
}

/// Index of the first `'\n'` of `s` at or after `from`, or its length.
fn find_line_end(s: &str, from: usize, len: usize) -> (r: usize)
    requires
        len == s@.len(),
        from <= len,
    ensures
        r == line_end_from(s@, from as int),
        from <= r <= len,
{
    let mut i = from;
    while i < len
        invariant
            len == s@.len(),
            from <= i <= len,
            line_end_from(s@, i as int) == line_end_from(s@, from as int),
        decreases len - i,
    {
        if s.get_char(i) == '\n' {
            return i;
        }
        i = i + 1;
    }
    i
}

/// First index from `from` below `end` that is not white space, or `end`.
fn find_non_white(s: &str, from: usize, end: usize) -> (r: usize)
    requires
        end <= s@.len(),
        from <= end,
    ensures
        r == skip_white(s@, from as int, end as int),
        from <= r <= end,
{
    let mut i = from;
    while i < end
        invariant
            end <= s@.len(),
            from <= i <= end,
            skip_white(s@, i as int, end as int) == skip_white(s@, from as int, end as int),
        decreases end - i,
    {
        if !white(s.get_char(i)) {
            return i;
        }
        i = i + 1;
    }
    i
}

/// First index from `from` below `end` that is white space, or `end`.
fn find_white(s: &str, from: usize, end: usize) -> (r: usize)
    requires
        end <= s@.len(),
        from <= end,
    ensures
        r == skip_word(s@, from as int, end as int),
        from <= r <= end,
{
    let mut i = from;
    while i < end
        invariant
            end <= s@.len(),
            from <= i <= end,
            skip_word(s@, i as int, end as int) == skip_word(s@, from as int, end as int),
        decreases end - i,
    {
        if white(s.get_char(i)) {
            return i;
        }
        i = i + 1;
    }
    i
}

/// The path of the HTTP request `request`: the second word of its first
/// line, or `/`.
pub fn request_path<'a>(request: &'a str) -> (r: &'a str)
    ensures
        r@ == request_path_of(request@),
{
    let len = request.unicode_len();
    let e = find_line_end(request, 0, len);
    let a0 = find_non_white(request, 0, e);
    let a1 = find_white(request, a0, e);
    let b0 = find_non_white(request, a1, e);
    if b0 < e {
        let b1 = find_white(request, b0, e);
        request.substring_char(b0, b1)
    } else {
        "/"
    }
}

/// Whether `a` and `b` hold the same characters.
pub fn same_text(a: &str, b: &str) -> (r: bool)
    ensures
        r == (a@ == b@),
{
    let n = a.unicode_len();
    if n != b.unicode_len() {
        return false;
    }
    let mut i: usize = 0;
    while i < n
        invariant
            n == a@.len(),
            n == b@.len(),
            i <= n,
            forall|j: int| 0 <= j < i ==> a@[j] == b@[j],
        decreases n - i,
    {
        if a.get_char(i) != b.get_char(i) {
            return false;
        }
        i = i + 1;
    }
    assert(a@ =~= b@);
    true
}

/// What the exporter answers for a path.
#[derive(Debug, Clone, Copy, PartialEq, Eq, Structural)]
pub enum Route {
    /// `/metrics`: the metrics text.
    Metrics,
    /// `/health` or `/`: `OK`.
    Health,
    /// Anything else: `404 Not Found`.
    NotFound,
}

/// The answer for the path `path`.
pub open spec fn route_of(path: Seq<char>) -> Route {
    if path == "/metrics"@ {
        Route::Metrics
    } else if path == "/health"@ || path == "/"@ {
        Route::Health
    } else {
        Route::NotFound
    }
}

/// The answer for the path `path`.
pub fn route(path: &str) -> (r: Route)
    ensures
        r == route_of(path@),
{
    if same_text(path, "/metrics") {
        Route::Metrics
    } else if same_text(path, "/health") || same_text(path, "/") {
        Route::Health
    } else {
        Route::NotFound
    }
}

/// The status of the answer `route`.
pub fn status_of(route: Route) -> (r: &'static str)
    ensures
        r@ == (if route == Route::NotFound { "404 Not Found"@ } else { "200 OK"@ }),
{
    match route {
        Route::NotFound => "404 Not Found",
        _ => "200 OK",
    }
}

/// The body of an answer other than the metrics: `OK` for the health
/// check, `Not Found` otherwise (each with a line end); the metrics answer
/// has the metrics text instead.
pub fn fixed_body_of(route: Route) -> (r: Option<&'static str>)
    ensures
        route == Route::Metrics ==> r is None,
        route == Route::Health ==> (r matches Some(b) && b@ == "OK\n"@),
        route == Route::NotFound ==> (r matches Some(b) && b@ == "Not Found\n"@),
{
    match route {
        Route::Metrics => None,
        Route::Health => Some("OK\n"),
        Route::NotFound => Some("Not Found\n"),
    }
}

/// The HTTP response with status `status` and a body of `body_bytes` bytes
/// whose text is `body`.
pub open spec fn response_text(status: Seq<char>, body_bytes: nat, body: Seq<char>) -> Seq<char> {
    "HTTP/1.1 "@ + status + "\r\nContent-Type: text/plain; version=0.0.4\r\nContent-Length: "@
        + decimal(body_bytes) + "\r\n\r\n"@ + body
}

/// The HTTP response with status `status` and body `body`.
pub fn http_response(status: &str, body: &str) -> (r: String)
    ensures
        r@ == response_text(status@, body.spec_bytes().len(), body@),
{
    let body_bytes = body.as_bytes_vec().len();
    let mut out = String::from_str("HTTP/1.1 ");
    out.append(status);
    out.append("\r\nContent-Type: text/plain; version=0.0.4\r\nContent-Length: ");
    append_decimal(&mut out, body_bytes as u64);
    out.append("\r\n\r\n");
    out.append(body);
    assert(out@ =~= response_text(status@, body.spec_bytes().len(), body@));
    out
}

/// `c` is an ASCII digit.
pub open spec fn is_digit(c: char) -> bool {
    '0' <= c && c <= '9'
}

/// The value of the decimal digits `s`.
pub open spec fn digits_value(s: Seq<char>) -> nat
    decreases s.len(),
{
    if s.len() == 0 {
        0
    } else {
        digits_value(s.drop_last()) * 10 + ((s.last() as u32) - ('0' as u32)) as nat
    }
}

/// The digits of a port's text: without one leading `+`.
pub open spec fn port_digits(s: Seq<char>) -> Seq<char> {
    if s.len() > 0 && s[0] == '+' {
        s.drop_first()
    } else {
        s
    }
}

/// `s` read as a `u16` the way `str::parse` reads one: an optional `+`
/// and at least one ASCII digit, of value at most 65535.
pub open spec fn port_value(s: Seq<char>) -> Option<u16> {
    let d = port_digits(s);
    if d.len() > 0 && (forall|i: int| 0 <= i < d.len() ==> is_digit(#[trigger] d[i])) && digits_value(d) <= u16::MAX {
        Some(digits_value(d) as u16)
    } else {
        None
    }
}

/// `s` read as a port number.
pub fn parse_port(s: &str) -> (r: Option<u16>)
    ensures
        r == port_value(s@),
{
    let n = s.unicode_len();
    let mut i: usize = 0;
    if n > 0 && s.get_char(0) == '+' {
        i = 1;
    }
    let start = i;
    let ghost d = port_digits(s@);
    assert(d =~= s@.subrange(start as int, n as int));
    if start >= n {
        return None;
    }
    let mut value: u32 = 0;
    while i < n
        invariant
            n == s@.len(),
            start <= i <= n,
            d == s@.subrange(start as int, n as int),
            d == port_digits(s@),
            forall|j: int| start <= j < i ==> is_digit(#[trigger] s@[j]),
            value == digits_value(s@.subrange(start as int, i as int)),
            value <= u16::MAX,
        decreases n - i,
    {
        let c = s.get_char(i);
        if !('0' <= c && c <= '9') {
            assert(d[i - start] == c);
            assert(!is_digit(d[i - start]));
            assert(!(forall|j: int| 0 <= j < d.len() ==> is_digit(#[trigger] d[j])));
            return None;
        }
        assert(s@.subrange(start as int, i + 1).drop_last() =~= s@.subrange(start as int, i as int));
        let next = value * 10 + ((c as u32) - ('0' as u32));
        if next > 0xFFFF {
            proof {
                let x = s@.subrange(start as int, i + 1);
                assert(x.last() == c);
                assert(digits_value(x) == next);
                if forall|j: int| 0 <= j < d.len() ==> is_digit(#[trigger] d[j]) {
                    lemma_digits_value_grows(d, (i + 1 - start) as int);
                    assert(d.subrange(0, (i + 1 - start) as int) =~= x);
                }
            }
            return None;
        }
        value = next;
        i = i + 1;
    }
    assert(s@.subrange(start as int, n as int) =~= d);
    assert forall|j: int| 0 <= j < d.len() implies is_digit(#[trigger] d[j]) by {
        assert(d[j] == s@[start + j]);
    }
    Some(value as u16)
}

/// The value of digits only grows as digits are added.
proof fn lemma_digits_value_grows(d: Seq<char>, k: int)
    requires
        0 <= k <= d.len(),
        forall|i: int| 0 <= i < d.len() ==> is_digit(#[trigger] d[i]),
    ensures
        digits_value(d) >= digits_value(d.subrange(0, k)),
    decreases d.len() - k,
{
    if k < d.len() {
        lemma_digits_value_grows(d, k + 1);
        assert(d.subrange(0, k + 1).drop_last() =~= d.subrange(0, k));
        assert(is_digit(d[k]));
    } else {
        assert(d.subrange(0, k) =~= d);
    }
}

/// What the exporter's command line asks for.
#[derive(Debug, Clone, Copy, PartialEq, Eq, Structural)]
pub enum ExporterCommand {
    /// Serve metrics on this port.
    Serve(u16),
    /// Print the usage and stop.
    Help,
    /// `-p` or `--port` came without a value: an error.
    MissingPortValue,
    /// The argument at this index is not understood: an error.
    UnknownArgument(usize),
}

/// What the arguments `args` from index `i` on ask for, with `port` the
/// port chosen so far. A port flag takes the next argument as the port (the
/// default port when it is not a number).
pub open spec fn command_from(args: Seq<String>, i: int, port: u16) -> ExporterCommand
    decreases args.len() - i,
{
    if i >= args.len() || i < 0 {
        ExporterCommand::Serve(port)
    } else if args[i]@ == "-p"@ || args[i]@ == "--port"@ {
        if i + 1 < args.len() {
            command_from(args, i + 2, match port_value(args[i + 1]@) {
                Some(p) => p,
                None => DEFAULT_PORT,
            })
        } else {
            ExporterCommand::MissingPortValue
        }
    } else if args[i]@ == "-h"@ || args[i]@ == "--help"@ {
        ExporterCommand::Help
    } else {
        ExporterCommand::UnknownArgument(i as usize)
    }
}

/// The port the environment gives (`env_port`, the value of the port
/// variable if set), or the default port.
pub open spec fn initial_port(env_port: Option<Seq<char>>) -> u16 {
    match env_port {
        Some(s) => match port_value(s) {
            Some(p) => p,
            None => DEFAULT_PORT,
        },
        None => DEFAULT_PORT,
    }
}

/// What the exporter's command line `args` (the program name first) asks
/// for, with `env_port` the value of the port variable if set.
pub fn exporter_command(args: &Vec<String>, env_port: Option<&str>) -> (r: ExporterCommand)
    ensures
        r == command_from(args@, 1, initial_port(match env_port {
            Some(s) => Some(s@),
            None => None,
        })),
{
    let mut port = match env_port {
        Some(s) => match parse_port(s) {
            Some(p) => p,
            None => DEFAULT_PORT,
        },
        None => DEFAULT_PORT,
    };
    let ghost start_port = port;
    let mut i: usize = 1;
    while i < args.len()
        invariant
            1 <= i,
            command_from(args@, i as int, port) == command_from(args@, 1, start_port),
        decreases args@.len() - i,
    {
        let arg = args[i].as_str();
        if same_text(arg, "-p") || same_text(arg, "--port") {
            if i + 1 < args.len() {
                port = match parse_port(args[i + 1].as_str()) {
                    Some(p) => p,
                    None => DEFAULT_PORT,
                };
                i = i + 2;
            } else {
                return ExporterCommand::MissingPortValue;
            }
        } else if same_text(arg, "-h") || same_text(arg, "--help") {
            return ExporterCommand::Help;
        } else {
            return ExporterCommand::UnknownArgument(i);
        }
    }
    ExporterCommand::Serve(port)
}

} // verus!
