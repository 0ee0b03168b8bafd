//! An incremental, zero-copy parser for HTTP/1.x request lines and headers.
//!
//! Parsing always starts again from the first byte of the buffer: a caller
//! that gets `Status::Partial` appends what it reads next and parses the whole
//! buffer again. The results borrow from the buffer; nothing is copied.
use vstd::prelude::*;

pub mod error;
pub mod grammar;
pub mod iter;
pub mod laws;

verus! {

use crate::error::Error;
use crate::grammar::{
    blank_lines, header_block, in_class, is_tchar, is_uri_byte, is_value_byte,
    lemma_run_end_bounds, line_end, request_model, run_end, spaces, token, version,
    version_byte_ok, Class, HeaderSpan, Step, COLON, CR, LF, SP,
};
use crate::iter::Bytes;
use vstd::string::StringSliceAdditionalSpecFns;
use vstd::utf8::valid_utf8;

/// Whether `b` may stand in a method (`tchar`).
pub fn is_method_token(b: u8) -> (r: bool)
    ensures
        r == is_tchar(b),
{
    if 0x41 <= b && b <= 0x5a {
        // upper-case letters, the usual case
        true
    } else {
        is_header_name_token(b)
    }
}

/// Whether `b` may stand in a request target.
pub fn is_uri_token(b: u8) -> (r: bool)
    ensures
        r == is_uri_byte(b),
{
    (0x21 <= b && b <= 0x7e) || b >= 0x80
}

/// Whether `b` may stand in a header name (`tchar`).
pub fn is_header_name_token(b: u8) -> (r: bool)
    ensures
        r == is_tchar(b),
{
    (0x41 <= b && b <= 0x5a) || (0x61 <= b && b <= 0x7a) || (0x30 <= b && b <= 0x39) || b == 0x21
        || (0x23 <= b && b <= 0x27) || b == 0x2a || b == 0x2b || b == 0x2d || b == 0x2e || b
        == 0x5e || b == 0x5f || b == 0x60 || b == 0x7c || b == 0x7e
}

/// Whether `b` may stand in a header value.
pub fn is_header_value_token(b: u8) -> (r: bool)
    ensures
        r == is_value_byte(b),
{
    b == 0x09 || (0x20 <= b && b <= 0x7e) || b >= 0x80
}

/// Whether `b` belongs to the byte set `c`.
pub fn classify(c: Class, b: u8) -> (r: bool)
    ensures
        r == in_class(c, b),
{
    match c {
        Class::Method => is_method_token(b),
        Class::Uri => is_uri_token(b),
        Class::HeaderName => is_header_name_token(b),
        Class::HeaderValue => is_header_value_token(b),
        Class::Space => b == SP,
    }
}

/// The characters that ASCII bytes stand for.
pub open spec fn ascii_chars(b: Seq<u8>) -> Seq<char> {
    b.map_values(|x: u8| x as char)
}

pub open spec fn all_ascii(b: Seq<u8>) -> bool {
    forall|i: int| 0 <= i < b.len() ==> #[trigger] b[i] < 0x80
}

/// Relies on `std::str::from_utf8`: it accepts exactly the valid UTF-8
/// byte strings and returns them as a `str` over the same bytes; ASCII bytes
/// are valid UTF-8, each one character.
#[verifier::external_body]
fn utf8_str(v: &[u8]) -> (r: Option<&str>)
    ensures
        r.is_some() == valid_utf8(v@),
        r.is_some() ==> r.unwrap().spec_bytes() == v@,
        all_ascii(v@) ==> r.is_some() && r.unwrap()@ == ascii_chars(v@),
{
    match std::str::from_utf8(v) {
        Ok(s) => Some(s),
        Err(_) => None,
    }
}

/// The result of a parse that found no invalid byte.
#[derive(Copy, Clone, Eq, PartialEq, Debug)]
pub enum Status<T> {
    /// The buffer held the whole value.
    Complete(T),
    /// The buffer ended before the value did.
    Partial,
}

impl<T> Status<T> {
    /// Whether the value was complete.
    pub fn is_complete(&self) -> (r: bool)
        ensures
            r == (*self is Complete),
    {
        match *self {
            Status::Complete(..) => true,
            Status::Partial => false,
        }
    }

    /// Whether the buffer ended before the value did.
    pub fn is_partial(&self) -> (r: bool)
        ensures
            r == (*self is Partial),
    {
        match *self {
            Status::Complete(..) => false,
            Status::Partial => true,
        }
    }

    /// The complete value.
    pub fn unwrap(self) -> (r: T)
        requires
            self is Complete,
        ensures
            self == Status::Complete(r),
    {
        match self {
            Status::Complete(t) => t,
            Status::Partial => vstd::pervasive::unreached(),
        }
    }
}

/// The outcome of a parse: a definitive failure, or a status.
pub type Result<T> = core::result::Result<Status<T>, Error>;

/// Whether the result `r` of a stage, with the cursor left at `end`, is what
/// the grammar makes of the same bytes.
pub open spec fn reports<T>(r: Result<T>, s: Step, end: int) -> bool {
    match r {
        Ok(Status::Complete(_)) => s == Step::Done(end),
        Ok(Status::Partial) => s == Step::More,
        Err(e) => s == Step::Fail(e),
    }
}

/// Steps over empty lines (`\n` or `\r\n`) and marks the first other byte.
fn skip_empty_lines(bytes: &mut Bytes<'_>) -> (r: Result<()>)
    requires
        old(bytes).wf(),
    ensures
        final(bytes).wf(),
        final(bytes).data() == old(bytes).data(),
        reports(r, blank_lines(old(bytes).data(), old(bytes).index()), final(bytes).index()),
        r is Ok && r->Ok_0 is Complete ==> final(bytes).start() == final(bytes).index(),
{
    loop
        invariant
            bytes.wf(),
            bytes.data() == old(bytes).data(),
            old(bytes).index() <= bytes.index(),
            blank_lines(bytes.data(), bytes.index()) == blank_lines(
                old(bytes).data(),
                old(bytes).index(),
            ),
        decreases bytes.data().len() - bytes.index(),
    {
        match bytes.peek() {
            Some(b) => {
                if b == CR {
                    bytes.bump();
                    match bytes.peek() {
                        Some(n) => {
                            if n == LF {
                                bytes.bump();
                            } else {
                                return Err(Error::NewLine);
                            }
                        },
                        None => {
                            return Ok(Status::Partial);
                        },
                    }
                } else if b == LF {
                    bytes.bump();
                } else {
                    bytes.mark();
                    return Ok(Status::Complete(()));
                }
            },
            None => {
                return Ok(Status::Partial);
            },
        }
    }
}

/// Steps over spaces and marks the first other byte.
fn skip_spaces(bytes: &mut Bytes<'_>) -> (r: Result<()>)
    requires
        old(bytes).wf(),
    ensures
        final(bytes).wf(),
        final(bytes).data() == old(bytes).data(),
        final(bytes).index() == run_end(old(bytes).data(), old(bytes).index(), Class::Space),
        reports(r, spaces(old(bytes).data(), old(bytes).index()), final(bytes).index()),
        r is Ok && r->Ok_0 is Complete ==> final(bytes).start() == final(bytes).index(),
{
    scan(bytes, Class::Space);
    match bytes.peek() {
        Some(_) => {
            bytes.mark();
            Ok(Status::Complete(()))
        },
        None => Ok(Status::Partial),
    }
}

/// Steps over the run of bytes of class `c` at the read position.
fn scan(bytes: &mut Bytes<'_>, c: Class)
    requires
        old(bytes).wf(),
    ensures
        final(bytes).wf(),
        final(bytes).data() == old(bytes).data(),
        final(bytes).start() == old(bytes).start(),
        final(bytes).index() == run_end(old(bytes).data(), old(bytes).index(), c),
{
    loop
        invariant
            bytes.wf(),
            bytes.data() == old(bytes).data(),
            bytes.start() == old(bytes).start(),
            run_end(bytes.data(), bytes.index(), c) == run_end(
                old(bytes).data(),
                old(bytes).index(),
                c,
            ),
        decreases bytes.data().len() - bytes.index(),
    {
        match bytes.peek() {
            Some(b) => {
                if classify(c, b) {
                    bytes.bump();
                } else {
                    return;
                }
            },
            None => {
                return;
            },
        }
    }
}

/// A non-empty run of class `c` ended by `term`: the run, with the cursor
/// past `term`.
fn parse_token<'b>(bytes: &mut Bytes<'b>, c: Class, term: u8, err: Error) -> (r: Result<&'b [u8]>)
    requires
        old(bytes).wf(),
    ensures
        final(bytes).wf(),
        final(bytes).data() == old(bytes).data(),
        reports(r, token(old(bytes).data(), old(bytes).index(), c, term, err), final(bytes).index()),
        r matches Ok(Status::Complete(t)) ==> t@ == old(bytes).data().subrange(
            old(bytes).index(),
            final(bytes).index() - 1,
        ),
{
    bytes.mark();
    scan(bytes, c);
    match bytes.peek() {
        Some(b) => {
            if b != term {
                return Err(err);
            }
            let t = bytes.slice();
            if t.len() == 0 {
                return Err(err);
            }
            bytes.bump();
            Ok(Status::Complete(t))
        },
        None => Ok(Status::Partial),
    }
}

/// `HTTP/1.0` or `HTTP/1.1`: the minor digit.
fn parse_version(bytes: &mut Bytes<'_>) -> (r: Result<u8>)
    requires
        old(bytes).wf(),
    ensures
        final(bytes).wf(),
        final(bytes).data() == old(bytes).data(),
        reports(r, version(old(bytes).data(), old(bytes).index()), final(bytes).index()),
        r matches Ok(Status::Complete(v)) ==> v == old(bytes).data()[old(bytes).index() + 7]
            - 0x30,
{
    let ghost buf = bytes.data();
    let ghost i = bytes.index();
    let mut j: usize = 0;
    let mut last: u8 = 0;
    while j < 8
        invariant
            bytes.wf(),
            bytes.data() == buf,
            buf == old(bytes).data(),
            i == old(bytes).index(),
            bytes.index() == i + j,
            j <= 8,
            forall|k: int| 0 <= k < j ==> version_byte_ok(k, #[trigger] buf[i + k]),
            j == 8 ==> last == buf[i + 7],
        decreases 8 - j,
    {
        match bytes.peek() {
            Some(b) => {
                if !expected_version_byte(j, b) {
                    assert(!version_byte_ok(j as int, buf[i + j]));
                    return Err(Error::Version);
                }
                bytes.bump();
                last = b;
            },
            None => {
                assert forall|k: int| 0 <= k < 8 && i + k < buf.len() implies version_byte_ok(
                    k,
                    #[trigger] buf[i + k],
                ) by {}
                return Ok(Status::Partial);
            },
        }
        j = j + 1;
    }
    Ok(Status::Complete(last - 0x30))
}

fn expected_version_byte(j: usize, b: u8) -> (r: bool)
    ensures
        r == version_byte_ok(j as int, b),
{
    if j == 0 {
        b == 0x48
    } else if j == 1 || j == 2 {
        b == 0x54
    } else if j == 3 {
        b == 0x50
    } else if j == 4 {
        b == 0x2f
    } else if j == 5 {
        b == 0x31
    } else if j == 6 {
        b == 0x2e
    } else {
        b == 0x30 || b == 0x31
    }
}

/// A line ending, `\n` or `\r\n`; another byte fails with `err`.
fn parse_line_end(bytes: &mut Bytes<'_>, err: Error) -> (r: Result<()>)
    requires
        old(bytes).wf(),
    ensures
        final(bytes).wf(),
        final(bytes).data() == old(bytes).data(),
        reports(r, line_end(old(bytes).data(), old(bytes).index(), err), final(bytes).index()),
{
    match bytes.peek() {
        Some(b) => {
            if b == LF {
                bytes.bump();
                Ok(Status::Complete(()))
            } else if b == CR {
                bytes.bump();
                match bytes.peek() {
                    Some(n) => {
                        if n == LF {
                            bytes.bump();
                            Ok(Status::Complete(()))
                        } else {
                            Err(Error::NewLine)
                        }
                    },
                    None => Ok(Status::Partial),
                }
            } else {
                Err(err)
            }
        },
        None => Ok(Status::Partial),
    }
}

/// A header: a name and a value that borrow from the parsed buffer.
#[derive(Copy, Clone, Eq, PartialEq, Debug)]
pub struct Header<'a> {
    /// The name; its bytes are token characters, so it is ASCII.
    pub name: &'a str,
    /// The value, as the bytes that stood in the message.
    pub value: &'a [u8],
}

/// Whether `h` holds the header that `s` locates in `buf`.
pub open spec fn header_at(h: Header, buf: Seq<u8>, s: HeaderSpan) -> bool {
    &&& h.name@ == ascii_chars(buf.subrange(s.name_start, s.name_end))
    &&& h.name.spec_bytes() == buf.subrange(s.name_start, s.name_end)
    &&& h.value@ == buf.subrange(s.value_start, s.value_end)
}

/// Parses header lines and the blank line after them into `headers`, from
/// the read position on. `Complete` gives the number of headers; the cursor
/// is then past the blank line.
fn parse_headers<'b>(headers: &mut [Header<'b>], bytes: &mut Bytes<'b>) -> (r: Result<usize>)
    requires
        old(bytes).wf(),
    ensures
        final(bytes).wf(),
        final(bytes).data() == old(bytes).data(),
        ({
            let (outcome, found) = header_block(
                old(bytes).data(),
                old(bytes).index(),
                0,
                old(headers)@.len() as nat,
            );
            &&& reports(r, outcome, final(bytes).index())
            &&& r matches Ok(Status::Complete(n)) ==> n == found.len()
            &&& found.len() <= old(headers)@.len()
            &&& final(headers)@.len() == old(headers)@.len()
            &&& forall|j: int|
                0 <= j < found.len() ==> header_at(
                    #[trigger] final(headers)@[j],
                    old(bytes).data(),
                    found[j],
                )
            &&& forall|j: int|
                found.len() <= j < old(headers)@.len() ==> #[trigger] final(headers)@[j]
                    == old(headers)@[j]
        }),
{
    let ghost buf = bytes.data();
    let ghost start = bytes.index();
    let cap = headers.len();
    let ghost whole = header_block(buf, start, 0, cap as nat);
    let ghost mut done: Seq<HeaderSpan> = seq![];
    let mut k: usize = 0;
    loop
        invariant
            bytes.wf(),
            bytes.data() == buf,
            buf == old(bytes).data(),
            start == old(bytes).index(),
            whole == header_block(buf, start, 0, cap as nat),
            cap == old(headers)@.len(),
            headers@.len() == cap,
            k <= cap,
            done.len() == k,
            whole.0 == header_block(buf, bytes.index(), k as nat, cap as nat).0,
            whole.1 == done + header_block(buf, bytes.index(), k as nat, cap as nat).1,
            forall|j: int| 0 <= j < k ==> header_at(#[trigger] headers@[j], buf, done[j]),
            forall|j: int| k <= j < cap ==> #[trigger] headers@[j] == old(headers)@[j],
        decreases buf.len() - bytes.index(),
    {
        let ghost i = bytes.index();
        let b = match bytes.peek() {
            Some(b) => b,
            None => {
                assert(whole.1 =~= done);
                return Ok(Status::Partial);
            },
        };
        if b == CR || b == LF {
            assert(whole.1 =~= done);
            let end = parse_line_end(bytes, Error::NewLine);
            return match end {
                Ok(Status::Complete(())) => Ok(Status::Complete(k)),
                Ok(Status::Partial) => Ok(Status::Partial),
                Err(e) => Err(e),
            };
        }
        if k >= cap {
            assert(whole.1 =~= done);
            return Err(Error::TooManyHeaders);
        }
        proof {
            lemma_run_end_bounds(buf, i, Class::HeaderName);
        }
        let name = match parse_token(bytes, Class::HeaderName, COLON, Error::HeaderName) {
            Ok(Status::Complete(t)) => t,
            Ok(Status::Partial) => {
                assert(whole.1 =~= done);
                return Ok(Status::Partial);
            },
            Err(e) => {
                assert(whole.1 =~= done);
                return Err(e);
            },
        };
        let ghost n = bytes.index();
        proof {
            lemma_run_end_bounds(buf, n, Class::Space);
        }
        match skip_spaces(bytes) {
            Ok(Status::Complete(())) => {},
            Ok(Status::Partial) => {
                assert(whole.1 =~= done);
                return Ok(Status::Partial);
            },
            Err(e) => {
                return Err(e);
            },
        }
        let ghost v0 = bytes.index();
        proof {
            lemma_run_end_bounds(buf, v0, Class::HeaderValue);
        }
        scan(bytes, Class::HeaderValue);
        let ghost v1 = bytes.index();
        let value = bytes.slice();
        match parse_line_end(bytes, Error::HeaderValue) {
            Ok(Status::Complete(())) => {},
            Ok(Status::Partial) => {
                assert(whole.1 =~= done);
                return Ok(Status::Partial);
            },
            Err(e) => {
                assert(whole.1 =~= done);
                return Err(e);
            },
        }
        let name = match utf8_str(name) {
            Some(s) => s,
            None => {
                return Err(Error::HeaderName);
            },
        };
        headers[k] = Header { name, value };
        let ghost h = HeaderSpan { name_start: i, name_end: n - 1, value_start: v0, value_end: v1 };
        proof {
            assert(done.push(h) + header_block(buf, bytes.index(), (k + 1) as nat, cap as nat).1
                =~= done + header_block(buf, i, k as nat, cap as nat).1);
            done = done.push(h);
        }
        k = k + 1;
    }
}

/// A request, filled in as far as parsing got.
#[derive(Debug, Eq, PartialEq)]
pub struct Request<'headers, 'buf> {
    /// The method, such as `GET`.
    pub method: Option<&'buf str>,
    /// The request target, such as `/index.html`.
    pub path: Option<&'buf str>,
    /// The minor version: `1` for `HTTP/1.1`.
    pub version: Option<u8>,
    /// The headers. After a complete parse this holds exactly the headers
    /// of the message, in order; otherwise it keeps the caller's length.
    pub headers: &'headers mut [Header<'buf>],
}

/// Whether the text `o` is what the span `s` of `buf` holds, or both are absent.
pub open spec fn text_at(o: Option<&str>, buf: Seq<u8>, s: Option<(int, int)>) -> bool {
    match s {
        None => o.is_none(),
        Some((a, b)) => o.is_some() && o.unwrap().spec_bytes() == buf.subrange(a, b),
    }
}

/// Whether `r` is how `s` ends a whole parse: `Complete` with the number of
/// bytes consumed.
pub open spec fn ends_as(r: Result<usize>, s: Step) -> bool {
    match r {
        Ok(Status::Complete(n)) => s == Step::Done(n as int),
        Ok(Status::Partial) => s == Step::More,
        Err(e) => s == Step::Fail(e),
    }
}

impl<'h, 'b> Request<'h, 'b> {
    /// A request with nothing parsed yet, that will record headers in
    /// `headers`.
    pub fn new(headers: &'h mut [Header<'b>]) -> (r: Request<'h, 'b>)
        ensures
            r.method.is_none(),
            r.path.is_none(),
            r.version.is_none(),
            r.headers@ == old(headers)@,
    {
        Request { method: None, path: None, version: None, headers }
    }

    /// Parses `buf` from its first byte. The fields are set as far as
    /// parsing gets; `Complete` gives the number of bytes the request line
    /// and headers took up, and cuts `headers` down to the headers found.
    pub fn parse(&mut self, buf: &'b [u8]) -> (r: Result<usize>)
        ensures
            ({
                let m = request_model(buf@, old(self).headers@.len() as nat);
                &&& ends_as(r, m.outcome)
                &&& text_at(final(self).method, buf@, m.method)
                &&& m.method matches Some((a, b)) ==> final(self).method.unwrap()@ == ascii_chars(
                    buf@.subrange(a, b),
                )
                &&& text_at(final(self).path, buf@, m.path)
                &&& final(self).version == m.version
                &&& m.headers.len() <= old(self).headers@.len()
                &&& forall|j: int|
                    0 <= j < m.headers.len() ==> header_at(
                        #[trigger] final(self).headers@[j],
                        buf@,
                        m.headers[j],
                    )
                &&& r matches Ok(Status::Complete(_)) ==> final(self).headers@.len()
                    == m.headers.len()
                &&& !(r matches Ok(Status::Complete(_))) ==> final(self).headers@.len()
                    == old(self).headers@.len()
                &&& !(r matches Ok(Status::Complete(_))) ==> forall|j: int|
                    m.headers.len() <= j < old(self).headers@.len() ==> #[trigger] final(self).headers@[j]
                        == old(self).headers@[j]
            }),
    {
        self.method = None;
        self.path = None;
        self.version = None;
        let mut bytes = Bytes::new(buf);
        match skip_empty_lines(&mut bytes) {
            Ok(Status::Complete(())) => {},
            Ok(Status::Partial) => {
                return Ok(Status::Partial);
            },
            Err(e) => {
                return Err(e);
            },
        }
        proof {
            // the method's bytes are token characters, hence ASCII
            lemma_run_end_bounds(buf@, bytes.index(), Class::Method);
        }
        let method = match parse_token(&mut bytes, Class::Method, SP, Error::Token) {
            Ok(Status::Complete(t)) => t,
            Ok(Status::Partial) => {
                return Ok(Status::Partial);
            },
            Err(e) => {
                return Err(e);
            },
        };
        match utf8_str(method) {
            Some(s) => {
                self.method = Some(s);
            },
            None => {
                return Err(Error::Token);
            },
        }
        let path = match parse_token(&mut bytes, Class::Uri, SP, Error::Uri) {
            Ok(Status::Complete(t)) => t,
            Ok(Status::Partial) => {
                return Ok(Status::Partial);
            },
            Err(e) => {
                return Err(e);
            },
        };
        match utf8_str(path) {
            Some(s) => {
                self.path = Some(s);
            },
            None => {
                return Err(Error::Uri);
            },
        }
        let minor = match parse_version(&mut bytes) {
            Ok(Status::Complete(v)) => v,
            Ok(Status::Partial) => {
                return Ok(Status::Partial);
            },
            Err(e) => {
                return Err(e);
            },
        };
        self.version = Some(minor);
        match parse_line_end(&mut bytes, Error::NewLine) {
            Ok(Status::Complete(())) => {},
            Ok(Status::Partial) => {
                return Ok(Status::Partial);
            },
            Err(e) => {
                return Err(e);
            },
        }
        match parse_headers(self.headers, &mut bytes) {
            Ok(Status::Complete(n)) => {
                let mut all: &'h mut [Header<'b>] = &mut [];
                core::mem::swap(&mut self.headers, &mut all);
                let (found, _) = all.split_at_mut(n);
                self.headers = found;
                Ok(Status::Complete(bytes.pos()))
            },
            Ok(Status::Partial) => Ok(Status::Partial),
            Err(e) => Err(e),
        }
    }
}

} // verus!
