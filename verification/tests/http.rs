use fwos::http::{find_headers_end, parse_head, HttpRequest, Progress, Reader};

fn feed(pieces: &[&[u8]]) -> Progress {
    let mut reader = Reader::new();
    for (i, piece) in pieces.iter().enumerate() {
        match reader.feed(piece) {
            Progress::More(next) => reader = next,
            other => {
                assert_eq!(i, pieces.len() - 1, "decided before the last piece");
                return other;
            }
        }
    }
    Progress::More(reader)
}

fn request(p: Progress) -> HttpRequest {
    match p {
        Progress::Ready(q) => q,
        Progress::Failed(e) => panic!("{e}"),
        Progress::More(_) => panic!("more is awaited"),
    }
}

fn failure(p: Progress) -> String {
    match p {
        Progress::Failed(e) => e,
        _ => panic!("expected a failure"),
    }
}

#[test]
fn the_end_of_the_headers_is_the_first_empty_line() {
    assert_eq!(find_headers_end(b"a\r\n\r\nb\r\n\r\n"), Some(1));
    assert_eq!(find_headers_end(b"\r\n\r\n"), Some(0));
    assert_eq!(find_headers_end(b"a\r\n\r"), None);
    assert_eq!(find_headers_end(b""), None);
}

#[test]
fn a_request_is_read_whole() {
    let q = request(feed(&[
        b"POST /api/login?x HTTP/1.1\r\nHost: fw\r\nContent-Length:  3 \r\n\r\nabcdef",
    ]));
    assert_eq!(q.method, "POST");
    assert_eq!(q.path, "/api/login?x");
    assert_eq!(q.body, b"abc");
    assert_eq!(
        q.headers,
        vec![
            ("host".to_string(), "fw".to_string()),
            ("content-length".to_string(), "3".to_string())
        ]
    );
}

#[test]
fn pieces_of_a_request_do_not_matter() {
    let raw: &[u8] = b"POST / HTTP/1.1\r\nContent-Length: 5\r\n\r\nhello";
    for cut in 1..raw.len() - 1 {
        let (a, b) = raw.split_at(cut);
        let q = request(feed(&[a, b]));
        assert_eq!((q.method.as_str(), q.body.as_slice()), ("POST", b"hello".as_slice()));
    }
}

#[test]
fn a_request_without_words_has_defaults() {
    let h = parse_head("").unwrap();
    assert_eq!((h.method.as_str(), h.path.as_str(), h.content_length), ("", "/", 0));
    let h = parse_head("GET").unwrap();
    assert_eq!((h.method.as_str(), h.path.as_str()), ("GET", "/"));
}

#[test]
fn requests_are_refused() {
    let bad = |s: &str| parse_head(s).map(|_| ()).unwrap_err();
    assert_eq!(bad("GET /\r\nnocolon"), "invalid request header");
    assert_eq!(bad("GET /\r\nA: 1\r\na: 2"), "duplicate request header");
    assert_eq!(bad("GET /\r\nTransfer-Encoding: chunked"), "unsupported transfer encoding");
    assert_eq!(bad("GET /\r\nContent-Length: x"), "invalid content length");
    assert_eq!(bad("GET /\r\nContent-Length: -1"), "invalid content length");
    assert_eq!(bad("GET /\r\nContent-Length: 99999999999999999999"), "invalid content length");
    assert_eq!(bad("GET /\r\nContent-Length: 1048577"), "body too large");
    assert_eq!(parse_head("GET /\r\nContent-Length: 1048576").unwrap().content_length, 1048576);
    assert_eq!(failure(feed(&[b"GET / \xff\r\n\r\n"])), "headers were not UTF-8");
    assert_eq!(failure(feed(&[b""])), "client closed during headers");
    assert_eq!(failure(feed(&[b"GET /", b""])), "client closed during headers");
    assert_eq!(
        failure(feed(&[b"GET /\r\nContent-Length: 2\r\n\r\na", b""])),
        "client closed during body"
    );
    let long = vec![b'a'; 65537];
    assert_eq!(failure(feed(&[&long])), "headers too large");
    let mut ended = vec![b'a'; 65537];
    ended.extend_from_slice(b"\r\n\r\n");
    assert_eq!(failure(feed(&[&ended])), "headers too large");
    let fits = vec![b'a'; 65536];
    assert!(matches!(feed(&[&fits]), Progress::More(_)));
}

#[test]
fn headers_need_not_be_ascii() {
    let q = request(feed(&["GET /\u{e9} HTTP/1.1\r\nX-Name: \u{e9}t\u{e9}\r\n\r\n".as_bytes()]));
    assert_eq!(q.path, "/\u{e9}");
    assert_eq!(q.headers[0].1, "\u{e9}t\u{e9}");
}
