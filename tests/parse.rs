use httparse::error::Error;
use httparse::grammar::Class;
use httparse::{
    classify, is_header_name_token, is_header_value_token, is_method_token, is_uri_token, Header,
    Request, Status,
};

fn empty() -> Header<'static> {
    Header { name: "", value: b"" }
}

#[test]
fn simple_get_is_complete() {
    let buf = b"GET / HTTP/1.1\r\n\r\n";
    let mut headers = [empty(); 4];
    let mut req = Request::new(&mut headers);
    let res = req.parse(buf);
    assert_eq!(res, Ok(Status::Complete(buf.len())));
    assert_eq!(req.method, Some("GET"));
    assert_eq!(req.path, Some("/"));
    assert_eq!(req.version, Some(1));
    assert_eq!(req.headers.len(), 0);
}

#[test]
fn cut_in_header_is_partial() {
    let buf = b"GET / HTTP/1.1\r\nHost:";
    let mut headers = [empty(); 4];
    let mut req = Request::new(&mut headers);
    let res = req.parse(buf);
    assert_eq!(res, Ok(Status::Partial));
    assert_eq!(req.method, Some("GET"));
    assert_eq!(req.path, Some("/"));
    assert_eq!(req.version, Some(1));
    assert_eq!(req.headers.len(), 4);
}

#[test]
fn one_header() {
    let buf = b"GET / HTTP/1.1\r\nHost: example.com\r\n\r\n";
    let mut headers = [empty(); 4];
    let mut req = Request::new(&mut headers);
    let res = req.parse(buf);
    assert_eq!(res, Ok(Status::Complete(buf.len())));
    assert_eq!(req.headers.len(), 1);
    assert_eq!(req.headers[0].name, "Host");
    assert_eq!(req.headers[0].value, b"example.com");
}

#[test]
fn control_byte_in_method() {
    let buf = b"G\x01T / HTTP/1.1\r\n\r\n";
    let mut headers = [empty(); 4];
    let mut req = Request::new(&mut headers);
    assert_eq!(req.parse(buf), Err(Error::Token));
    assert_eq!(req.method, None);
}

#[test]
fn control_byte_in_method_needs_no_more_bytes() {
    let mut headers = [empty(); 4];
    let mut req = Request::new(&mut headers);
    assert_eq!(req.parse(b"G\x01"), Err(Error::Token));
}

#[test]
fn http_2_is_refused() {
    let buf = b"GET / HTTP/2.0\r\n\r\n";
    let mut headers = [empty(); 4];
    let mut req = Request::new(&mut headers);
    assert_eq!(req.parse(buf), Err(Error::Version));
    assert_eq!(req.method, Some("GET"));
    assert_eq!(req.path, Some("/"));
    assert_eq!(req.version, None);
}

#[test]
fn http_1_0_with_bare_newlines() {
    let buf = b"POST /a?b=c HTTP/1.0\nX: y\n\nbody";
    let mut headers = [empty(); 4];
    let mut req = Request::new(&mut headers);
    assert_eq!(req.parse(buf), Ok(Status::Complete(buf.len() - 4)));
    assert_eq!(req.method, Some("POST"));
    assert_eq!(req.path, Some("/a?b=c"));
    assert_eq!(req.version, Some(0));
    assert_eq!(req.headers.len(), 1);
    assert_eq!(req.headers[0].name, "X");
    assert_eq!(req.headers[0].value, b"y");
}

#[test]
fn leading_empty_lines_are_skipped() {
    let buf = b"\r\n\nGET / HTTP/1.1\r\n\r\n";
    let mut headers = [empty(); 1];
    let mut req = Request::new(&mut headers);
    assert_eq!(req.parse(buf), Ok(Status::Complete(buf.len())));
    assert_eq!(req.method, Some("GET"));
}

#[test]
fn bare_cr_before_request_line() {
    let mut headers = [empty(); 1];
    let mut req = Request::new(&mut headers);
    assert_eq!(req.parse(b"\rGET / HTTP/1.1\r\n\r\n"), Err(Error::NewLine));
}

#[test]
fn exactly_capacity_headers() {
    let buf = b"GET / HTTP/1.1\r\nA: 1\r\nB: 2\r\n\r\n";
    let mut headers = [empty(); 2];
    let mut req = Request::new(&mut headers);
    assert_eq!(req.parse(buf), Ok(Status::Complete(buf.len())));
    assert_eq!(req.headers.len(), 2);
    assert_eq!(req.headers[0].name, "A");
    assert_eq!(req.headers[1].name, "B");
    assert_eq!(req.headers[1].value, b"2");
}

#[test]
fn one_header_too_many() {
    let buf = b"GET / HTTP/1.1\r\nA: 1\r\nB: 2\r\nC: 3\r\n\r\n";
    let mut headers = [empty(); 2];
    let mut req = Request::new(&mut headers);
    assert_eq!(req.parse(buf), Err(Error::TooManyHeaders));
    assert_eq!(req.headers.len(), 2);
    assert_eq!(req.headers[0].name, "A");
    assert_eq!(req.headers[0].value, b"1");
    assert_eq!(req.headers[1].name, "B");
    assert_eq!(req.headers[1].value, b"2");
}

#[test]
fn no_room_for_any_header() {
    let buf = b"GET / HTTP/1.1\r\nA: 1\r\n\r\n";
    let mut headers: [Header; 0] = [];
    let mut req = Request::new(&mut headers);
    assert_eq!(req.parse(buf), Err(Error::TooManyHeaders));
}

#[test]
fn high_bytes_in_value_kept() {
    let buf = b"GET / HTTP/1.1\r\nX: a\x80\xff\tb\r\n\r\n";
    let mut headers = [empty(); 2];
    let mut req = Request::new(&mut headers);
    assert_eq!(req.parse(buf), Ok(Status::Complete(buf.len())));
    assert_eq!(req.headers[0].value, b"a\x80\xff\tb");
}

#[test]
fn control_byte_in_value() {
    let buf = b"GET / HTTP/1.1\r\nX: a\x01b\r\n\r\n";
    let mut headers = [empty(); 2];
    let mut req = Request::new(&mut headers);
    assert_eq!(req.parse(buf), Err(Error::HeaderValue));
}

#[test]
fn bare_cr_in_value() {
    let buf = b"GET / HTTP/1.1\r\nX: a\rb\r\n\r\n";
    let mut headers = [empty(); 2];
    let mut req = Request::new(&mut headers);
    assert_eq!(req.parse(buf), Err(Error::NewLine));
}

#[test]
fn cr_at_end_of_value_waits() {
    let buf = b"GET / HTTP/1.1\r\nX: a\r";
    let mut headers = [empty(); 2];
    let mut req = Request::new(&mut headers);
    assert_eq!(req.parse(buf), Ok(Status::Partial));
}

#[test]
fn empty_value() {
    let buf = b"GET / HTTP/1.1\r\nX:\r\nY:   \r\n\r\n";
    let mut headers = [empty(); 2];
    let mut req = Request::new(&mut headers);
    assert_eq!(req.parse(buf), Ok(Status::Complete(buf.len())));
    assert_eq!(req.headers[0].value, b"");
    assert_eq!(req.headers[1].value, b"");
}

#[test]
fn bad_header_name() {
    let mut headers = [empty(); 2];
    let mut req = Request::new(&mut headers);
    assert_eq!(req.parse(b"GET / HTTP/1.1\r\n: x\r\n\r\n"), Err(Error::HeaderName));
    let mut headers = [empty(); 2];
    let mut req = Request::new(&mut headers);
    assert_eq!(req.parse(b"GET / HTTP/1.1\r\nHost x\r\n\r\n"), Err(Error::HeaderName));
}

#[test]
fn bad_path() {
    let mut headers = [empty(); 2];
    let mut req = Request::new(&mut headers);
    assert_eq!(req.parse(b"GET  / HTTP/1.1\r\n\r\n"), Err(Error::Uri));
    assert_eq!(req.method, Some("GET"));
    let mut headers = [empty(); 2];
    let mut req = Request::new(&mut headers);
    assert_eq!(req.parse(b"GET /\r\n"), Err(Error::Uri));
}

#[test]
fn path_must_be_utf8() {
    let mut headers = [empty(); 2];
    let mut req = Request::new(&mut headers);
    assert_eq!(req.parse(b"GET /\xff HTTP/1.1\r\n\r\n"), Err(Error::Uri));
    let mut headers = [empty(); 2];
    let mut req = Request::new(&mut headers);
    let buf = "GET /caf\u{e9} HTTP/1.1\r\n\r\n".as_bytes();
    assert_eq!(req.parse(buf), Ok(Status::Complete(buf.len())));
    assert_eq!(req.path, Some("/caf\u{e9}"));
}

#[test]
fn bad_line_end_after_version() {
    let mut headers = [empty(); 2];
    let mut req = Request::new(&mut headers);
    assert_eq!(req.parse(b"GET / HTTP/1.1x\r\n"), Err(Error::NewLine));
    assert_eq!(req.version, Some(1));
    let mut headers = [empty(); 2];
    let mut req = Request::new(&mut headers);
    assert_eq!(req.parse(b"GET / HTTP/1.1\rx"), Err(Error::NewLine));
}

#[test]
fn every_proper_prefix_is_partial() {
    let buf = b"GET /index.html HTTP/1.1\r\nHost: example.com\r\nAccept: */*\r\n\r\n";
    for k in 1..buf.len() {
        let mut headers = [empty(); 4];
        let mut req = Request::new(&mut headers);
        assert_eq!(req.parse(&buf[..k]), Ok(Status::Partial));
    }
}

#[test]
fn byte_by_byte_matches_whole() {
    let buf = b"GET /index.html HTTP/1.1\r\nHost: example.com\r\nAccept: */*\r\n\r\n";
    let mut whole_headers = [empty(); 4];
    let mut whole = Request::new(&mut whole_headers);
    let whole_res = whole.parse(buf);
    assert_eq!(whole_res, Ok(Status::Complete(buf.len())));
    let mut grown: Vec<u8> = Vec::new();
    let mut last = Ok(Status::Partial);
    for &b in buf.iter() {
        grown.push(b);
        let mut headers = [empty(); 4];
        let mut req = Request::new(&mut headers);
        last = req.parse(&grown);
        if last != Ok(Status::Partial) {
            assert_eq!(grown.len(), buf.len());
            assert_eq!(req.method, whole.method);
            assert_eq!(req.path, whole.path);
            assert_eq!(req.version, whole.version);
            assert_eq!(req.headers.len(), whole.headers.len());
            for i in 0..req.headers.len() {
                assert_eq!(req.headers[i], whole.headers[i]);
            }
        }
    }
    assert_eq!(last, whole_res);
}

#[test]
fn reparse_with_same_request() {
    let mut headers = [empty(); 4];
    let mut req = Request::new(&mut headers);
    assert_eq!(req.parse(b"GET / HT"), Ok(Status::Partial));
    assert_eq!(req.version, None);
    let buf = b"GET / HTTP/1.1\r\nA: b\r\n\r\n";
    assert_eq!(req.parse(buf), Ok(Status::Complete(buf.len())));
    assert_eq!(req.headers.len(), 1);
}

#[test]
fn status_methods() {
    let c: Status<usize> = Status::Complete(3);
    let p: Status<usize> = Status::Partial;
    assert!(c.is_complete());
    assert!(!c.is_partial());
    assert!(p.is_partial());
    assert!(!p.is_complete());
    assert_eq!(c.unwrap(), 3);
}

#[test]
fn token_tables() {
    for b in 0..=255u8 {
        let tchar = b.is_ascii_alphanumeric() || b"!#$%&'*+-.^_`|~".contains(&b);
        assert_eq!(is_method_token(b), tchar);
        assert_eq!(is_header_name_token(b), tchar);
        assert_eq!(is_uri_token(b), (0x21..=0x7e).contains(&b) || b >= 0x80);
        assert_eq!(is_header_value_token(b), b == b'\t' || (0x20..=0x7e).contains(&b) || b >= 0x80);
        assert_eq!(classify(Class::Space, b), b == b' ');
        assert_eq!(classify(Class::Uri, b), is_uri_token(b));
    }
}

#[test]
fn any_token_method_is_recorded() {
    for m in ["GET", "M", "PROPFIND", "get", "X-Custom_1!", "~|`^"] {
        let text = format!("{} /x HTTP/1.1\r\nA: b\r\n\r\n", m);
        let buf = text.as_bytes();
        let mut headers = [empty(); 2];
        let mut req = Request::new(&mut headers);
        assert_eq!(req.parse(buf), Ok(Status::Complete(buf.len())));
        assert_eq!(req.method, Some(m));
    }
}

#[test]
fn more_room_changes_nothing() {
    let buf = b"GET / HTTP/1.1\r\nA: 1\r\nB: 2\r\n\r\n";
    let mut small = [empty(); 2];
    let mut big = [empty(); 8];
    let mut a = Request::new(&mut small);
    let mut b = Request::new(&mut big);
    assert_eq!(a.parse(buf), b.parse(buf));
    assert_eq!(a.headers.len(), b.headers.len());
    assert_eq!(a.headers[0], b.headers[0]);
    assert_eq!(a.headers[1], b.headers[1]);
}
