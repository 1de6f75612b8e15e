use uhttp_request::{check_crlf, next_line, skip_empty_lines, Error, Headers, RequestLine};

#[test]
fn test_request_line() {
    let (req, rest) = RequestLine::new(b"GET / HTTP/1.1\r\n\r\n").unwrap();

    assert_eq!(req.method, "GET");
    assert_eq!(req.target, "/");
    assert_eq!(req.version, "HTTP/1.1");

    assert_eq!(rest, &b"\r\n"[..]);

    let (req, rest) = RequestLine::new(b"GET / HTTP/1.1\r\nHost: foo.com\r\nCookie: \r\n\r\n").unwrap();

    assert_eq!(req.method, "GET");
    assert_eq!(req.target, "/");
    assert_eq!(req.version, "HTTP/1.1");
    assert_eq!(rest, &b"Host: foo.com\r\nCookie: \r\n\r\n"[..]);

    let (req, rest) = RequestLine::new(b"GET / HTTP/1.1\r\nA: A\r\nB: B\r\nC: C\r\nD: D\r\n\r\n").unwrap();

    assert_eq!(req.method, "GET");
    assert_eq!(req.target, "/");
    assert_eq!(req.version, "HTTP/1.1");
    assert_eq!(rest, &b"A: A\r\nB: B\r\nC: C\r\nD: D\r\n\r\n"[..]);

    let (req, rest) = RequestLine::new(
        b"GET / HTTP/1.1\r\nHost: foo.com\r\nUser-Agent: \xe3\x81\xb2\xe3/1.0\r\n\r\n",
    )
    .unwrap();

    assert_eq!(req.method, "GET");
    assert_eq!(req.target, "/");
    assert_eq!(req.version, "HTTP/1.1");
    assert_eq!(rest, &b"Host: foo.com\r\nUser-Agent: \xe3\x81\xb2\xe3/1.0\r\n\r\n"[..]);

    let (req, rest) = RequestLine::new(b"GET / HTTP/1.1\r\n\r").unwrap();

    assert_eq!(req.method, "GET");
    assert_eq!(req.target, "/");
    assert_eq!(req.version, "HTTP/1.1");
    assert_eq!(rest, &b"\r"[..]);

    assert_eq!(
        RequestLine::new(&b"GET / HTTP/1.1\nHost: foo.bar\n\n"[..]),
        Err(Error::Partial)
    );

    let (req, rest) = RequestLine::new(&b"\r\n\r\nGET / HTTP/1.1\r\n\r\n"[..]).unwrap();

    assert_eq!(req.method, "GET");
    assert_eq!(req.target, "/");
    assert_eq!(req.version, "HTTP/1.1");
    assert_eq!(rest, &b"\r\n"[..]);

    assert_eq!(
        RequestLine::new(&b"\n\nGET / HTTP/1.1\n\n"[..]),
        Err(Error::Partial)
    );

    assert_eq!(
        RequestLine::new(&b"GET\n/ HTTP/1.1\r\nHost: foo.bar\r\n\r\n"[..]),
        Err(Error::Syntax)
    );

    let (req, rest) = RequestLine::new(b"\n\n\nGET / HTTP/1.1\r\n\n").unwrap();

    assert_eq!(req.method, "\n\n\nGET");
    assert_eq!(req.target, "/");
    assert_eq!(req.version, "HTTP/1.1");
    assert_eq!(rest, &b"\n"[..]);

    let (req, rest) = RequestLine::new(b"\r\n\nGET / H\tTTP/1.1\r\n\n").unwrap();

    assert_eq!(req.method, "\nGET");
    assert_eq!(req.target, "/");
    assert_eq!(req.version, "H\tTTP/1.1");
    assert_eq!(rest, &b"\n"[..]);

    assert_eq!(
        RequestLine::new(b"\r\n\rGET / HTTP/1.1\r\n\n"),
        Err(Error::Syntax)
    );
    assert_eq!(
        RequestLine::new(b"GET /some path/ HTTP/1.1\r\n\r"),
        Err(Error::Syntax)
    );
    assert_eq!(RequestLine::new(b"GET\r\n"), Err(Error::Syntax));
    assert_eq!(RequestLine::new(b"GET /\r\n"), Err(Error::Syntax));
    assert_eq!(RequestLine::new(b"GET / HTTP/1.1 \r\n"), Err(Error::Syntax));
    assert_eq!(RequestLine::new(b"GET /  \r\n"), Err(Error::Syntax));
    assert_eq!(RequestLine::new(b"GET / HTTP/1.1"), Err(Error::Partial));
    assert_eq!(RequestLine::new(b"GET / HTTP/1.1\r"), Err(Error::Partial));
    assert_eq!(RequestLine::new(b"GET / HTTP/1.1\n"), Err(Error::Partial));
}

#[test]
fn test_headers() {
    let mut h = Headers::new(b"Content-Type: text/html\r\nContent-Length: 1337\r\n\r\nbody text");
    let n = h.next().unwrap().unwrap();
    assert_eq!(n.name, "Content-Type");
    assert_eq!(n.val, b" text/html");
    let n = h.next().unwrap().unwrap();
    assert_eq!(n.name, "Content-Length");
    assert_eq!(n.val, b" 1337");
    assert!(h.next().is_none());
    assert_eq!(h.into_inner(), b"body text");

    let mut h = Headers::new(b"  Content-Type \t\t: text/html\r\n\r\nbody text");
    let n = h.next().unwrap().unwrap();
    assert_eq!(n.name, "Content-Type");
    assert_eq!(n.val, b" text/html");
    assert!(h.next().is_none());
    assert_eq!(h.into_inner(), b"body text");

    let mut h = Headers::new(b"\tContent-Type \t\t: text/html\r\n\r\n");
    let n = h.next().unwrap().unwrap();
    assert_eq!(n.name, "Content-Type");
    assert_eq!(n.val, b" text/html");
    assert!(h.next().is_none());
    assert_eq!(h.into_inner(), b"");

    let mut h = Headers::new(b"  Content-Type \t\t: text/html\n");
    let n = h.next().unwrap();
    assert_eq!(n, Err(Error::Partial));
}

#[test]
fn test_skip_empty_lines() {
    assert_eq!(skip_empty_lines(b"GET"), Ok(&b"GET"[..]));
    assert_eq!(skip_empty_lines(b"\r\n\r\nGET"), Ok(&b"GET"[..]));
    assert_eq!(skip_empty_lines(b"\r\n\rGET"), Ok(&b"\rGET"[..]));
    assert_eq!(skip_empty_lines(b"\nGET"), Ok(&b"\nGET"[..]));
}

#[test]
fn test_next_line() {
    assert_eq!(next_line(b"abc\r\ndef"), Ok((&b"abc"[..], &b"def"[..])));
    assert_eq!(next_line(b"abc def\r\nghi"), Ok((&b"abc def"[..], &b"ghi"[..])));
    assert_eq!(next_line(b"abc\r\n"), Ok((&b"abc"[..], &b""[..])));
    assert_eq!(next_line(b"abc"), Err(Error::Partial));
    assert_eq!(next_line(b"abc\n"), Err(Error::Partial));
    assert_eq!(next_line(b"\r\ndef"), Ok((&b""[..], &b"def"[..])));
    assert_eq!(next_line(b""), Err(Error::Partial));
}

#[test]
fn test_check_crlf() {
    assert_eq!(check_crlf(b"\r\nabc"), Ok(&b"abc"[..]));
    assert_eq!(check_crlf(b"\r"), Err(Error::Partial));
    assert_eq!(check_crlf(b""), Err(Error::Partial));
    assert_eq!(check_crlf(b"\n"), Err(Error::Partial));
    assert_eq!(check_crlf(b"\nabc"), Err(Error::Syntax));
    assert_eq!(check_crlf(b"abc\r\n"), Err(Error::Syntax));
}

#[test]
fn test_header_without_colon_is_syntax() {
    let mut h = Headers::new(b"Content-Type text/html\r\n\r\n");
    assert_eq!(h.next(), Some(Err(Error::Syntax)));
}

#[test]
fn test_header_blank_name_is_syntax() {
    let mut h = Headers::new(b"   : text/html\r\n\r\n");
    assert_eq!(h.next(), Some(Err(Error::Syntax)));

    let mut h = Headers::new(b" \t : x\r\n\r\n");
    assert_eq!(h.next(), Some(Err(Error::Syntax)));
}

#[test]
fn test_header_name_invalid_utf8_is_syntax() {
    let mut h = Headers::new(b"X-\xe3: v\r\n\r\n");
    assert_eq!(h.next(), Some(Err(Error::Syntax)));
}

#[test]
fn test_request_line_invalid_utf8_is_syntax() {
    assert_eq!(RequestLine::new(b"G\xffT / HTTP/1.1\r\n\r\n"), Err(Error::Syntax));
}

#[test]
fn test_restart_after_partial_matches_full_parse() {
    let full = &b"\r\nGET /index HTTP/1.0\r\nHost: x\r\n\r\n"[..];

    for len in 0..23 {
        assert_eq!(RequestLine::new(&full[..len]), Err(Error::Partial));
    }

    let (req, rest) = RequestLine::new(full).unwrap();
    assert_eq!(req.method, "GET");
    assert_eq!(req.target, "/index");
    assert_eq!(req.version, "HTTP/1.0");
    assert_eq!(rest, &b"Host: x\r\n\r\n"[..]);
}

#[test]
fn test_syntax_is_stable_under_more_bytes() {
    assert_eq!(RequestLine::new(b"GET /\r\n"), Err(Error::Syntax));
    assert_eq!(RequestLine::new(b"GET /\r\nHost: x\r\n\r\n"), Err(Error::Syntax));
    assert_eq!(RequestLine::new(b"abc\rdef"), Err(Error::Syntax));
    assert_eq!(RequestLine::new(b"abc\rdef more bytes"), Err(Error::Syntax));
}

#[test]
fn test_request_line_reconstruction() {
    let input = &b"\r\nGET /abc?k=v HTTP/1.1\r\nHost: example.com\r\n\r\n"[..];
    let (req, rest) = RequestLine::new(input).unwrap();

    let rebuilt = [
        &b"\r\n"[..],
        req.method.as_bytes(),
        &b" "[..],
        req.target.as_bytes(),
        &b" "[..],
        req.version.as_bytes(),
        &b"\r\n"[..],
        rest,
    ]
    .concat();
    assert_eq!(rebuilt, input);
}

#[test]
fn test_headers_terminal_state_is_idempotent() {
    let mut h = Headers::new(b"\r\nabc");
    assert!(h.next().is_none());
    assert!(h.next().is_none());
    assert!(h.next().is_none());
    assert_eq!(h.into_inner(), b"abc");

    let mut h = Headers::new(b"A: 1\r\n\r\nX: y\r\n\r\n");
    let n = h.next().unwrap().unwrap();
    assert_eq!(n.name, "A");
    assert_eq!(n.val, b" 1");
    assert!(h.next().is_none());
    assert!(h.next().is_none());
    assert_eq!(h.into_inner(), b"X: y\r\n\r\n");
}

#[test]
fn test_empty_version_field_is_kept() {
    let (req, rest) = RequestLine::new(b"GET / \r\n\r\n").unwrap();
    assert_eq!(req.method, "GET");
    assert_eq!(req.target, "/");
    assert_eq!(req.version, "");
    assert_eq!(rest, &b"\r\n"[..]);
}
