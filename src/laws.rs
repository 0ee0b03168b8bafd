//! Properties of the request grammar that relate several inputs or several
//! parses. `Request::parse` is exactly `request_model`, so each of these holds
//! of the parser too.
use vstd::prelude::*;

verus! {

use crate::error::Error;
use crate::grammar::{
    blank_lines, header_block, in_class, is_tchar, is_value_byte, lemma_run_end_bounds, line_end,
    request_model, run_end, token, version, version_byte_ok, Class, HeaderSpan, Step, CR, LF, SP,
};

/// A run of class `c` from `i` that ends at a byte outside `c` ends there.
pub proof fn lemma_run_end_exact(buf: Seq<u8>, i: int, e: int, c: Class)
    requires
        0 <= i <= e < buf.len(),
        forall|j: int| i <= j < e ==> in_class(c, #[trigger] buf[j]),
        !in_class(c, buf[e]),
    ensures
        run_end(buf, i, c) == e,
    decreases e - i,
{
    if i < e {
        lemma_run_end_exact(buf, i + 1, e, c);
    }
}

/// A request that starts with a non-empty method and a space has that method,
/// whatever follows.
pub proof fn method_is_leading_token(m: Seq<u8>, t: Seq<u8>, cap: nat)
    requires
        m.len() > 0,
        forall|j: int| 0 <= j < m.len() ==> is_tchar(#[trigger] m[j]),
    ensures
        request_model(m + seq![SP] + t, cap).method == Some((0int, m.len() as int)),
{
    let buf = m + seq![SP] + t;
    assert(buf[0] == m[0]);
    assert(blank_lines(buf, 0) == Step::Done(0));
    assert forall|j: int| 0 <= j < m.len() implies in_class(Class::Method, #[trigger] buf[j]) by {
        assert(buf[j] == m[j]);
    }
    assert(buf[m.len() as int] == SP);
    lemma_run_end_exact(buf, 0, m.len() as int, Class::Method);
    assert(token(buf, 0, Class::Method, SP, Error::Token) == Step::Done(m.len() + 1int));
}

proof fn lemma_header_capacity(buf: Seq<u8>, i: int, k: nat, c1: nat, c2: nat)
    requires
        header_block(buf, i, k, c1).0 is Done,
        c2 >= k,
    ensures
        ({
            let (s1, h1) = header_block(buf, i, k, c1);
            &&& c2 >= k + h1.len() ==> header_block(buf, i, k, c2) == (s1, h1)
            &&& c2 < k + h1.len() ==> header_block(buf, i, k, c2) == (
                Step::Fail(Error::TooManyHeaders),
                h1.take(c2 - k),
            )
        }),
    decreases buf.len() - i,
{
    let (s1, h1) = header_block(buf, i, k, c1);
    if i < 0 || i >= buf.len() {
    } else if buf[i] == CR || buf[i] == LF {
    } else if k >= c1 {
    } else {
        lemma_run_end_bounds(buf, i, Class::HeaderName);
        if let Step::Done(n) = token(buf, i, Class::HeaderName, 0x3a, Error::HeaderName) {
            let v0 = run_end(buf, n, Class::Space);
            let v1 = run_end(buf, v0, Class::HeaderValue);
            lemma_run_end_bounds(buf, n, Class::Space);
            lemma_run_end_bounds(buf, v0, Class::HeaderValue);
            if let Step::Done(e) = line_end(buf, v1, Error::HeaderValue) {
                let rest = header_block(buf, e, k + 1, c1);
                if c2 > k {
                    lemma_header_capacity(buf, e, k + 1, c1, c2);
                    if c2 < k + h1.len() {
                        assert(h1.take(c2 - k) =~= h1.take(1) + rest.1.take(c2 - k - 1));
                    }
                } else {
                    assert(h1.take(0) =~= Seq::<HeaderSpan>::empty());
                }
            }
        }
    }
}

/// Room for as many headers as a complete request holds is enough, and more
/// room changes nothing; with room for fewer, parsing fails with
/// `TooManyHeaders` and has recorded the headers that fit.
pub proof fn header_capacity(buf: Seq<u8>, cap: nat, other: nat)
    requires
        request_model(buf, cap).outcome is Done,
    ensures
        ({
            let m = request_model(buf, cap);
            let o = request_model(buf, other);
            &&& other >= m.headers.len() ==> o == m
            &&& other < m.headers.len() ==> o.outcome == Step::Fail(Error::TooManyHeaders)
                && o.headers == m.headers.take(other as int) && o.method == m.method && o.path
                == m.path && o.version == m.version
        }),
{
    let m = request_model(buf, cap);
    if let Step::Done(m0) = blank_lines(buf, 0) {
        if let Step::Done(p0) = token(buf, m0, Class::Method, SP, Error::Token) {
            if let Step::Done(v0) = token(buf, p0, Class::Uri, SP, Error::Uri) {
                if let Step::Done(e0) = version(buf, v0) {
                    if let Step::Done(h0) = line_end(buf, e0, Error::NewLine) {
                        lemma_header_capacity(buf, h0, 0, cap, other);
                    }
                }
            }
        }
    }
}

/// Whether the value that `h` locates lies in `buf` and holds value bytes only.
pub open spec fn value_bytes_only(buf: Seq<u8>, h: HeaderSpan) -> bool {
    forall|p: int|
        h.value_start <= p < h.value_end ==> 0 <= p < buf.len() && is_value_byte(
            #[trigger] buf[p],
        )
}

proof fn lemma_header_values(buf: Seq<u8>, i: int, k: nat, cap: nat)
    ensures
        ({
            let hs = header_block(buf, i, k, cap).1;
            forall|j: int| 0 <= j < hs.len() ==> value_bytes_only(buf, #[trigger] hs[j])
        }),
    decreases buf.len() - i,
{
    let hs = header_block(buf, i, k, cap).1;
    if i < 0 || i >= buf.len() {
    } else if buf[i] == CR || buf[i] == LF {
    } else if k >= cap {
    } else {
        lemma_run_end_bounds(buf, i, Class::HeaderName);
        if let Step::Done(n) = token(buf, i, Class::HeaderName, 0x3a, Error::HeaderName) {
            let v0 = run_end(buf, n, Class::Space);
            let v1 = run_end(buf, v0, Class::HeaderValue);
            lemma_run_end_bounds(buf, n, Class::Space);
            lemma_run_end_bounds(buf, v0, Class::HeaderValue);
            if let Step::Done(e) = line_end(buf, v1, Error::HeaderValue) {
                let rest = header_block(buf, e, k + 1, cap).1;
                lemma_header_values(buf, e, k + 1, cap);
                assert forall|j: int| 0 <= j < hs.len() implies value_bytes_only(
                    buf,
                    #[trigger] hs[j],
                ) by {
                    if j > 0 {
                        assert(hs[j] == rest[j - 1]);
                    }
                }
            }
        }
    }
}

/// Every byte of a recorded header value is a value byte: tab, printable
/// ASCII, or from 0x80 up. A value with any other control byte is never
/// recorded.
pub proof fn header_values_have_no_controls(buf: Seq<u8>, cap: nat)
    ensures
        ({
            let hs = request_model(buf, cap).headers;
            forall|j: int| 0 <= j < hs.len() ==> value_bytes_only(buf, #[trigger] hs[j])
        }),
{
    if let Step::Done(m0) = blank_lines(buf, 0) {
        if let Step::Done(p0) = token(buf, m0, Class::Method, SP, Error::Token) {
            if let Step::Done(v0) = token(buf, p0, Class::Uri, SP, Error::Uri) {
                if let Step::Done(e0) = version(buf, v0) {
                    if let Step::Done(h0) = line_end(buf, e0, Error::NewLine) {
                        lemma_header_values(buf, h0, 0, cap);
                    }
                }
            }
        }
    }
}

proof fn lemma_run_end_prefix(buf: Seq<u8>, k: int, i: int, c: Class)
    requires
        0 <= i <= k <= buf.len(),
    ensures
        run_end(buf.subrange(0, k), i, c) == if run_end(buf, i, c) < k {
            run_end(buf, i, c)
        } else {
            k
        },
    decreases k - i,
{
    let q = buf.subrange(0, k);
    lemma_run_end_bounds(buf, i, c);
    if i < k {
        assert(q[i] == buf[i]);
        lemma_run_end_prefix(buf, k, i + 1, c);
    }
}

proof fn lemma_blank_prefix(buf: Seq<u8>, k: int, i: int)
    requires
        0 <= i <= k <= buf.len(),
        blank_lines(buf, i) is Done,
    ensures
        ({
            let j = blank_lines(buf, i)->Done_0;
            &&& i <= j
            &&& k > j ==> blank_lines(buf.subrange(0, k), i) == Step::Done(j)
            &&& k <= j ==> blank_lines(buf.subrange(0, k), i) == Step::More
        }),
    decreases buf.len() - i,
{
    let q = buf.subrange(0, k);
    if i < k {
        assert(q[i] == buf[i]);
    }
    if i + 1 < k {
        assert(q[i + 1] == buf[i + 1]);
    }
    if buf[i] == LF {
        if i + 1 <= k {
            lemma_blank_prefix(buf, k, i + 1);
        } else {
            lemma_blank_prefix(buf, i + 1, i + 1);
        }
    } else if buf[i] == CR {
        if i + 2 <= k {
            lemma_blank_prefix(buf, k, i + 2);
        } else {
            lemma_blank_prefix(buf, i + 2, i + 2);
        }
    }
}

proof fn lemma_token_prefix(buf: Seq<u8>, k: int, i: int, c: Class, term: u8, err: Error)
    requires
        0 <= i <= k <= buf.len(),
        token(buf, i, c, term, err) is Done,
    ensures
        ({
            let j = token(buf, i, c, term, err)->Done_0;
            &&& i < j
            &&& k >= j ==> token(buf.subrange(0, k), i, c, term, err) == Step::Done(j)
            &&& k < j ==> token(buf.subrange(0, k), i, c, term, err) == Step::More
        }),
{
    let q = buf.subrange(0, k);
    lemma_run_end_bounds(buf, i, c);
    lemma_run_end_prefix(buf, k, i, c);
    let e = run_end(buf, i, c);
    if e < k {
        assert(q[e] == buf[e]);
    }
}

proof fn lemma_version_prefix(buf: Seq<u8>, k: int, i: int)
    requires
        0 <= i <= k <= buf.len(),
        version(buf, i) is Done,
    ensures
        version(buf, i) == Step::Done(i + 8),
        k >= i + 8 ==> version(buf.subrange(0, k), i) == Step::Done(i + 8),
        k < i + 8 ==> version(buf.subrange(0, k), i) == Step::More,
{
    let q = buf.subrange(0, k);
    assert forall|j: int| 0 <= j < 8 && i + j < q.len() implies version_byte_ok(
        j,
        #[trigger] q[i + j],
    ) by {
        assert(q[i + j] == buf[i + j]);
    }
}

proof fn lemma_line_end_prefix(buf: Seq<u8>, k: int, i: int, err: Error)
    requires
        0 <= i <= k <= buf.len(),
        line_end(buf, i, err) is Done,
    ensures
        ({
            let j = line_end(buf, i, err)->Done_0;
            &&& i < j
            &&& k >= j ==> line_end(buf.subrange(0, k), i, err) == Step::Done(j)
            &&& k < j ==> line_end(buf.subrange(0, k), i, err) == Step::More
        }),
{
    let q = buf.subrange(0, k);
    if i < k {
        assert(q[i] == buf[i]);
    }
    if i + 1 < k {
        assert(q[i + 1] == buf[i + 1]);
    }
}

proof fn lemma_header_prefix(buf: Seq<u8>, k: int, i: int, kk: nat, cap: nat)
    requires
        0 <= i <= k <= buf.len(),
        header_block(buf, i, kk, cap).0 is Done,
    ensures
        ({
            let j = header_block(buf, i, kk, cap).0->Done_0;
            &&& i < j <= buf.len()
            &&& k >= j ==> header_block(buf.subrange(0, k), i, kk, cap) == header_block(
                buf,
                i,
                kk,
                cap,
            )
            &&& k < j ==> header_block(buf.subrange(0, k), i, kk, cap).0 == Step::More
        }),
    decreases buf.len() - i,
{
    let q = buf.subrange(0, k);
    if i < k {
        assert(q[i] == buf[i]);
    }
    if buf[i] == CR || buf[i] == LF {
        lemma_line_end_prefix(buf, k, i, Error::NewLine);
    } else {
        lemma_run_end_bounds(buf, i, Class::HeaderName);
        lemma_token_prefix(buf, k, i, Class::HeaderName, 0x3a, Error::HeaderName);
        let n = token(buf, i, Class::HeaderName, 0x3a, Error::HeaderName)->Done_0;
        let v0 = run_end(buf, n, Class::Space);
        let v1 = run_end(buf, v0, Class::HeaderValue);
        lemma_run_end_bounds(buf, n, Class::Space);
        lemma_run_end_bounds(buf, v0, Class::HeaderValue);
        let e = line_end(buf, v1, Error::HeaderValue)->Done_0;
        if k >= n {
            lemma_run_end_prefix(buf, k, n, Class::Space);
            if v0 <= k {
                lemma_run_end_prefix(buf, k, v0, Class::HeaderValue);
                if v1 <= k {
                    lemma_line_end_prefix(buf, k, v1, Error::HeaderValue);
                }
            } else {
                lemma_run_end_prefix(buf, k, k, Class::HeaderValue);
            }
            if k >= e {
                lemma_header_prefix(buf, k, e, kk + 1, cap);
            } else {
                lemma_header_prefix(buf, e, e, kk + 1, cap);
            }
        } else {
            lemma_header_prefix(buf, e, e, kk + 1, cap);
        }
    }
}

proof fn lemma_model_prefix(buf: Seq<u8>, cap: nat, k: int)
    requires
        0 <= k <= buf.len(),
        request_model(buf, cap).outcome is Done,
    ensures
        request_model(buf, cap).outcome->Done_0 <= buf.len(),
        k >= request_model(buf, cap).outcome->Done_0 ==> request_model(buf.subrange(0, k), cap)
            == request_model(buf, cap),
        k < request_model(buf, cap).outcome->Done_0 ==> request_model(
            buf.subrange(0, k),
            cap,
        ).outcome == Step::More,
{
    let q = buf.subrange(0, k);
    let n = request_model(buf, cap).outcome->Done_0;
    let len = buf.len() as int;
    lemma_blank_prefix(buf, len, 0);
    let m0 = blank_lines(buf, 0)->Done_0;
    lemma_token_prefix(buf, len, m0, Class::Method, SP, Error::Token);
    let p0 = token(buf, m0, Class::Method, SP, Error::Token)->Done_0;
    lemma_token_prefix(buf, len, p0, Class::Uri, SP, Error::Uri);
    let v0 = token(buf, p0, Class::Uri, SP, Error::Uri)->Done_0;
    lemma_version_prefix(buf, len, v0);
    let e0 = v0 + 8;
    lemma_line_end_prefix(buf, len, e0, Error::NewLine);
    let h0 = line_end(buf, e0, Error::NewLine)->Done_0;
    lemma_header_prefix(buf, len, h0, 0, cap);
    lemma_blank_prefix(buf, k, 0);
    if k <= m0 {
        lemma_blank_prefix(buf, m0, 0);
        return;
    }
    lemma_token_prefix(buf, k, m0, Class::Method, SP, Error::Token);
    if k < p0 {
        return;
    }
    lemma_token_prefix(buf, k, p0, Class::Uri, SP, Error::Uri);
    if k < v0 {
        return;
    }
    assert(q.subrange(p0, v0 - 1) =~= buf.subrange(p0, v0 - 1));
    lemma_version_prefix(buf, k, v0);
    if k < e0 {
        return;
    }
    assert(q[v0 + 7] == buf[v0 + 7]);
    lemma_line_end_prefix(buf, k, e0, Error::NewLine);
    if k < h0 {
        return;
    }
    lemma_header_prefix(buf, k, h0, 0, cap);
}

/// A request that parses completely, cut anywhere before its end, is
/// incomplete: never an error, and never complete.
pub proof fn cut_request_is_partial(buf: Seq<u8>, cap: nat, k: int)
    requires
        request_model(buf, cap).outcome == Step::Done(buf.len() as int),
        0 <= k < buf.len(),
    ensures
        request_model(buf.subrange(0, k), cap).outcome == Step::More,
{
    lemma_model_prefix(buf, cap, k);
}

/// Parsing a buffer again from its start as it grows gives `More` until the
/// buffer holds the whole request, and from then on the same result as the
/// whole buffer, with the same fields.
pub proof fn growing_buffer_reaches_same_result(buf: Seq<u8>, cap: nat)
    requires
        request_model(buf, cap).outcome is Done,
    ensures
        ({
            let n = request_model(buf, cap).outcome->Done_0;
            &&& forall|k: int|
                0 <= k < n ==> (#[trigger] request_model(buf.subrange(0, k), cap)).outcome
                    == Step::More
            &&& forall|k: int|
                n <= k <= buf.len() ==> #[trigger] request_model(buf.subrange(0, k), cap)
                    == request_model(buf, cap)
        }),
{
    let n = request_model(buf, cap).outcome->Done_0;
    lemma_model_prefix(buf, cap, 0);
    assert forall|k: int| 0 <= k < n implies (#[trigger] request_model(
        buf.subrange(0, k),
        cap,
    )).outcome == Step::More by {
        lemma_model_prefix(buf, cap, k);
    }
    assert forall|k: int| n <= k <= buf.len() implies #[trigger] request_model(
        buf.subrange(0, k),
        cap,
    ) == request_model(buf, cap) by {
        lemma_model_prefix(buf, cap, k);
    }
}

} // verus!
