use vstd::prelude::*;
use crate::error::Error;
use vstd::utf8::valid_utf8;

verus! {

/// Carriage return.
pub const CR: u8 = 0x0d;

/// Line feed.
pub const LF: u8 = 0x0a;

/// Space.
pub const SP: u8 = 0x20;

/// The colon that ends a header name.
pub const COLON: u8 = 0x3a;

/// The byte sets that the request grammar scans over.
#[derive(Copy, Clone, Debug, PartialEq, Eq, Structural)]
pub enum Class {
    /// Token characters of a method.
    Method,
    /// Bytes of a request target.
    Uri,
    /// Token characters of a header name.
    HeaderName,
    /// Bytes of a header value.
    HeaderValue,
    /// The space that may follow a header's colon.
    Space,
}

/// `tchar`: an ASCII letter or digit, or one of ``!#$%&'*+-.^_`|~``.
pub open spec fn is_tchar(b: u8) -> bool {
    // letters and digits
    (0x41 <= b <= 0x5a) || (0x61 <= b <= 0x7a) || (0x30 <= b <= 0x39)
    // ! # $ % & '
    || b == 0x21 || (0x23 <= b <= 0x27)
    // * + - .
    || b == 0x2a || b == 0x2b || b == 0x2d || b == 0x2e
    // ^ _ ` | ~
    || b == 0x5e || b == 0x5f || b == 0x60 || b == 0x7c || b == 0x7e
}

/// A visible ASCII byte other than space, or any byte from 0x80 up.
pub open spec fn is_uri_byte(b: u8) -> bool {
    (0x21 <= b <= 0x7e) || b >= 0x80
}

/// Tab, a printable ASCII byte (space included), or any byte from 0x80 up.
pub open spec fn is_value_byte(b: u8) -> bool {
    b == 0x09 || (0x20 <= b <= 0x7e) || b >= 0x80
}

pub open spec fn in_class(c: Class, b: u8) -> bool {
    match c {
        Class::Method => is_tchar(b),
        Class::Uri => is_uri_byte(b),
        Class::HeaderName => is_tchar(b),
        Class::HeaderValue => is_value_byte(b),
        Class::Space => b == SP,
    }
}

/// Where the run of bytes of class `c` that starts at `i` ends.
pub open spec fn run_end(buf: Seq<u8>, i: int, c: Class) -> int
    decreases buf.len() - i,
{
    if 0 <= i < buf.len() && in_class(c, buf[i]) {
        run_end(buf, i + 1, c)
    } else {
        i
    }
}

pub proof fn lemma_run_end_bounds(buf: Seq<u8>, i: int, c: Class)
    requires
        0 <= i,
    ensures
        i <= run_end(buf, i, c),
        i <= buf.len() ==> run_end(buf, i, c) <= buf.len(),
        forall|j: int| i <= j < run_end(buf, i, c) ==> in_class(c, #[trigger] buf[j]),
        run_end(buf, i, c) < buf.len() ==> !in_class(c, buf[run_end(buf, i, c)]),
    decreases buf.len() - i,
{
    if 0 <= i < buf.len() && in_class(c, buf[i]) {
        lemma_run_end_bounds(buf, i + 1, c);
    }
}

/// What one stage of the grammar makes of the bytes from a position on.
pub enum Step {
    /// The stage is complete and the next one starts at this position.
    Done(int),
    /// The buffer ends before the stage can be decided.
    More,
    /// The bytes can never start a valid request.
    Fail(Error),
}

/// Empty lines (`\n` or `\r\n`) from `i` on, up to the first other byte.
pub open spec fn blank_lines(buf: Seq<u8>, i: int) -> Step
    decreases buf.len() - i,
{
    if i < 0 || i >= buf.len() {
        Step::More
    } else if buf[i] == LF {
        blank_lines(buf, i + 1)
    } else if buf[i] == CR {
        if i + 1 >= buf.len() {
            Step::More
        } else if buf[i + 1] == LF {
            blank_lines(buf, i + 2)
        } else {
            Step::Fail(Error::NewLine)
        }
    } else {
        Step::Done(i)
    }
}

/// Spaces from `i` on, up to the first other byte.
pub open spec fn spaces(buf: Seq<u8>, i: int) -> Step {
    let e = run_end(buf, i, Class::Space);
    if e >= buf.len() {
        Step::More
    } else {
        Step::Done(e)
    }
}

/// A non-empty run of class `c` from `i`, ended by the byte `term`, which is
/// consumed; any other end fails with `err`.
pub open spec fn token(buf: Seq<u8>, i: int, c: Class, term: u8, err: Error) -> Step {
    let e = run_end(buf, i, c);
    if e >= buf.len() {
        Step::More
    } else if e == i || buf[e] != term {
        Step::Fail(err)
    } else {
        Step::Done(e + 1)
    }
}

/// The byte that may stand at offset `j` of a version: `HTTP/1.` and then
/// the minor digit `0` or `1`.
pub open spec fn version_byte_ok(j: int, b: u8) -> bool {
    if j == 0 {
        b == 0x48  // H
    } else if j == 1 || j == 2 {
        b == 0x54  // T
    } else if j == 3 {
        b == 0x50  // P
    } else if j == 4 {
        b == 0x2f  // /
    } else if j == 5 {
        b == 0x31  // 1
    } else if j == 6 {
        b == 0x2e  // .
    } else {
        b == 0x30 || b == 0x31  // 0 or 1
    }
}

/// The eight bytes of a version from `i`; a wrong byte fails as soon as it
/// is present.
pub open spec fn version(buf: Seq<u8>, i: int) -> Step {
    if exists|j: int| 0 <= j < 8 && i + j < buf.len() && !version_byte_ok(j, #[trigger] buf[i + j]) {
        Step::Fail(Error::Version)
    } else if i + 8 > buf.len() {
        Step::More
    } else {
        Step::Done(i + 8)
    }
}

/// A line ending (`\n` or `\r\n`) at `i`; another byte fails with `err`.
pub open spec fn line_end(buf: Seq<u8>, i: int, err: Error) -> Step {
    if i < 0 || i >= buf.len() {
        Step::More
    } else if buf[i] == LF {
        Step::Done(i + 1)
    } else if buf[i] == CR {
        if i + 1 >= buf.len() {
            Step::More
        } else if buf[i + 1] == LF {
            Step::Done(i + 2)
        } else {
            Step::Fail(Error::NewLine)
        }
    } else {
        Step::Fail(err)
    }
}

/// Where a header's name and value lie in the buffer, as half-open ranges.
pub struct HeaderSpan {
    pub name_start: int,
    pub name_end: int,
    pub value_start: int,
    pub value_end: int,
}

/// The header lines from `i` on, and the blank line that ends them, with `k`
/// headers already recorded and room for `cap`: how the block ends, and the
/// headers recorded from `i` on.
pub open spec fn header_block(buf: Seq<u8>, i: int, k: nat, cap: nat) -> (Step, Seq<HeaderSpan>)
    decreases buf.len() - i,
{
    if i < 0 || i >= buf.len() {
        (Step::More, seq![])
    } else if buf[i] == CR || buf[i] == LF {
        (line_end(buf, i, Error::NewLine), seq![])
    } else if k >= cap {
        (Step::Fail(Error::TooManyHeaders), seq![])
    } else {
        match token(buf, i, Class::HeaderName, COLON, Error::HeaderName) {
            Step::Done(n) => {
                let v0 = run_end(buf, n, Class::Space);
                let v1 = run_end(buf, v0, Class::HeaderValue);
                match line_end(buf, v1, Error::HeaderValue) {
                    Step::Done(e) => {
                        proof {
                            lemma_run_end_bounds(buf, i, Class::HeaderName);
                            lemma_run_end_bounds(buf, n, Class::Space);
                            lemma_run_end_bounds(buf, v0, Class::HeaderValue);
                        }
                        let h = HeaderSpan {
                            name_start: i,
                            name_end: n - 1,
                            value_start: v0,
                            value_end: v1,
                        };
                        let rest = header_block(buf, e, k + 1, cap);
                        (rest.0, seq![h] + rest.1)
                    },
                    s => (s, seq![]),
                }
            },
            s => (s, seq![]),
        }
    }
}

/// What parsing `buf` yields with room for `cap` headers: how it ends, and
/// the fields recorded up to that point.
pub struct RequestModel {
    pub outcome: Step,
    pub method: Option<(int, int)>,
    pub path: Option<(int, int)>,
    pub version: Option<u8>,
    pub headers: Seq<HeaderSpan>,
}

/// A request is optional empty lines, then `method SP target SP version`
/// and a line ending, then the header block. The target must be valid UTF-8.
pub open spec fn request_model(buf: Seq<u8>, cap: nat) -> RequestModel {
    let nothing = RequestModel {
        outcome: Step::More,
        method: None,
        path: None,
        version: None,
        headers: seq![],
    };
    match blank_lines(buf, 0) {
        Step::Done(m0) => match token(buf, m0, Class::Method, SP, Error::Token) {
            Step::Done(p0) => {
                let method = Some((m0, p0 - 1));
                match token(buf, p0, Class::Uri, SP, Error::Uri) {
                    Step::Done(v0) => {
                        let path = Some((p0, v0 - 1));
                        if !valid_utf8(buf.subrange(p0, v0 - 1)) {
                            RequestModel { outcome: Step::Fail(Error::Uri), method, ..nothing }
                        } else {
                        match version(buf, v0) {
                            Step::Done(e0) => {
                                let minor = Some((buf[v0 + 7] - 0x30) as u8);
                                match line_end(buf, e0, Error::NewLine) {
                                    Step::Done(h0) => {
                                        let (outcome, headers) = header_block(buf, h0, 0, cap);
                                        RequestModel { outcome, method, path, version: minor, headers }
                                    },
                                    s => RequestModel { outcome: s, method, path, version: minor, ..nothing },
                                }
                            },
                            s => RequestModel { outcome: s, method, path, ..nothing },
                        }
                        }
                    },
                    s => RequestModel { outcome: s, method, ..nothing },
                }
            },
            s => RequestModel { outcome: s, ..nothing },
        },
        s => RequestModel { outcome: s, ..nothing },
    }
}

} // verus!
