//! The part of HTTP that the web interface speaks: one request on a
//! connection, read in pieces, and its response.

use crate::documents;
use crate::json;
use crate::json::{json_text, integers_only, Json, JsonView};
use crate::text;
use crate::text::{
    add_text, concat, decimal, first_some, lemma_first_some, lemma_first_some_is, lemma_first_some_none,
    lemma_split_once, lower, lowered, parse_number, parse_unsigned, print, same, slice_text, split_once, str_opt,
    texts, trim, trimmed, words, words_of,
};
use vstd::prelude::*;
use vstd::utf8::{decode_utf8, encode_utf8, valid_utf8};

verus! {

// ---------------------------------------------------------------------------
// The end of the headers
// ---------------------------------------------------------------------------

/// The most bytes of headers.
pub const MAX_HEADERS: usize = 65536;

/// The most bytes of a body.
pub const MAX_BODY: u64 = 1048576;

/// Whether an empty line ends the headers at that place.
pub open spec fn ends_headers(b: Seq<u8>, i: int) -> bool {
    0 <= i && i + 4 <= b.len() && b[i] == 13 && b[i + 1] == 10 && b[i + 2] == 13 && b[i + 3] == 10
}

/// The place where the headers end first.
pub open spec fn headers_end(b: Seq<u8>) -> Option<int> {
    first_some(
        b.len(),
        |i: int|
            if ends_headers(b, i) {
                Some(i)
            } else {
                None
            },
    )
}

/// The first place is the one with none before it.
proof fn lemma_headers_end(b: Seq<u8>, i: int)
    requires
        0 <= i <= b.len(),
        i < b.len() ==> ends_headers(b, i),
        forall|j: int| 0 <= j < i ==> !ends_headers(b, j),
    ensures
        headers_end(b) == if i < b.len() {
            Some(i)
        } else {
            None
        },
{
    let f = |i: int|
        if ends_headers(b, i) {
            Some(i)
        } else {
            None::<int>
        };
    text::lemma_first_some_none(i as nat, f);
    if i < b.len() {
        lemma_first_some((i + 1) as nat, b.len(), f);
    }
}

/// Where there is a first place, it is one, with none before it.
proof fn lemma_headers_end_is(b: Seq<u8>)
    ensures
        match headers_end(b) {
            Some(i) => 0 <= i && ends_headers(b, i) && forall|j: int| 0 <= j < i ==> !ends_headers(b, j),
            None => forall|j: int| 0 <= j < b.len() ==> !ends_headers(b, j),
        },
{
    if exists|i: int| 0 <= i < b.len() && ends_headers(b, i) {
        let i = choose|i: int| 0 <= i < b.len() && ends_headers(b, i);
        lemma_least(b, i);
        let k = choose|k: int|
            0 <= k <= i && ends_headers(b, k) && forall|j: int| 0 <= j < k ==> !ends_headers(b, j);
        lemma_headers_end(b, k);
    } else {
        lemma_headers_end(b, b.len() as int);
    }
}

proof fn lemma_least(b: Seq<u8>, i: int)
    requires
        0 <= i,
        ends_headers(b, i),
    ensures
        exists|k: int|
            0 <= k <= i && ends_headers(b, k) && forall|j: int| 0 <= j < k ==> !ends_headers(b, j),
    decreases i,
{
    if exists|j: int| 0 <= j < i && ends_headers(b, j) {
        let j = choose|j: int| 0 <= j < i && ends_headers(b, j);
        lemma_least(b, j);
        let k = choose|k: int|
            0 <= k <= j && ends_headers(b, k) && forall|l: int| 0 <= l < k ==> !ends_headers(b, l);
        assert(0 <= k <= i);
    }
}

/// The place where the headers end.
pub fn find_headers_end(b: &[u8]) -> (r: Option<usize>)
    ensures
        match r {
            Some(i) => headers_end(b@) == Some(i as int) && i + 4 <= b@.len(),
            None => headers_end(b@) is None,
        },
{
    let n: usize = b.len();
    let mut i: usize = 0;
    while i < n
        invariant
            n == b@.len(),
            i <= n,
            forall|j: int| 0 <= j < i ==> !ends_headers(b@, j),
        decreases n - i,
    {
        if n - i >= 4 && b[i] == 13 && b[i + 1] == 10 && b[i + 2] == 13 && b[i + 3] == 10 {
            proof {
                lemma_headers_end(b@, i as int);
            }
            return Some(i);
        }
        i = i + 1;
    }
    proof {
        lemma_headers_end(b@, n as int);
    }
    None
}

// ---------------------------------------------------------------------------
// Lines
// ---------------------------------------------------------------------------

/// Whether a line ends at that place.
pub open spec fn ends_line(s: Seq<char>, i: int) -> bool {
    0 <= i && i + 2 <= s.len() && s[i] == '\r' && s[i + 1] == '\n'
}

/// The place of the first line end, or the length where there is none.
pub open spec fn line_end(s: Seq<char>) -> nat
    decreases s.len(),
{
    if s.len() == 0 || ends_line(s, 0) {
        0
    } else {
        1 + line_end(s.skip(1))
    }
}

/// What stands between one line end and the next.
pub open spec fn header_lines(s: Seq<char>) -> Seq<Seq<char>>
    decreases s.len(),
{
    let i = line_end(s) as int;
    if i < 0 || i + 2 > s.len() {
        seq![s]
    } else {
        seq![s.take(i)] + header_lines(s.skip(i + 2))
    }
}

proof fn lemma_line_end(s: Seq<char>, i: int)
    requires
        0 <= i <= s.len(),
        i < s.len() ==> ends_line(s, i),
        forall|j: int| 0 <= j < i ==> !ends_line(s, j),
    ensures
        line_end(s) == i,
    decreases i,
{
    if i > 0 {
        let t = s.skip(1);
        assert forall|j: int| 0 <= j < i - 1 implies !ends_line(t, j) by {
            assert(!ends_line(s, j + 1));
        }
        assert(!ends_line(s, 0));
        lemma_line_end(t, i - 1);
    }
}

fn header_lines_of(s: &str) -> (r: Vec<String>)
    ensures
        texts(r@) == header_lines(s@),
        r@.len() >= 1,
{
    let v = text::chars_of(s);
    let n: usize = v.len();
    let mut out: Vec<String> = Vec::new();
    let mut from: usize = 0;
    let mut i: usize = 0;
    proof {
        assert(v@.skip(0) == v@);
        assert(texts(out@) + header_lines(v@) == header_lines(v@));
    }
    while i < n
        invariant
            v@ == s@,
            n == v@.len(),
            from <= i <= n,
            forall|j: int| from <= j < i ==> !ends_line(v@, j),
            texts(out@) + header_lines(v@.skip(from as int)) == header_lines(s@),
        decreases n - i,
    {
        if n - i >= 2 && v[i] == '\r' && v[i + 1] == '\n' {
            let line = slice_text(&v, from, i);
            let ghost rest = v@.skip(from as int);
            let ghost out0 = texts(out@);
            proof {
                assert forall|j: int| 0 <= j < i - from implies !ends_line(rest, j) by {
                    assert(!ends_line(v@, j + from));
                }
                assert(ends_line(rest, i - from));
                lemma_line_end(rest, i - from);
                assert(rest.take(i - from) == line@);
                assert(rest.skip(i - from + 2) == v@.skip(i + 2));
            }
            add_text(&mut out, line);
            proof {
                assert(texts(out@) + header_lines(v@.skip(i + 2)) == out0 + header_lines(rest));
            }
            from = i + 2;
            i = i + 2;
        } else {
            i = i + 1;
        }
    }
    let line = slice_text(&v, from, n);
    let ghost rest = v@.skip(from as int);
    let ghost out0 = texts(out@);
    proof {
        assert forall|j: int| 0 <= j < rest.len() implies !ends_line(rest, j) by {
            assert(!ends_line(v@, j + from));
        }
        lemma_line_end(rest, rest.len() as int);
        assert(rest == line@);
    }
    add_text(&mut out, line);
    assert(texts(out@) == out0 + seq![rest]);
    out
}

// ---------------------------------------------------------------------------
// Headers
// ---------------------------------------------------------------------------

/// The value of the first header of that name.
pub open spec fn header(h: Seq<(Seq<char>, Seq<char>)>, name: Seq<char>) -> Option<Seq<char>> {
    first_some(h.len(), header_at(h, name))
}

pub open spec fn header_at(h: Seq<(Seq<char>, Seq<char>)>, name: Seq<char>) -> spec_fn(int) -> Option<
    Seq<char>,
> {
    |i: int|
        if h[i].0 == name {
            Some(h[i].1)
        } else {
            None
        }
}

pub open spec fn header_views(v: Seq<(String, String)>) -> Seq<(Seq<char>, Seq<char>)> {
    Seq::new(v.len(), |i: int| (v[i].0@, v[i].1@))
}

/// The value of the first header of that name.
pub fn find_header<'a>(v: &'a Vec<(String, String)>, name: &str) -> (r: Option<&'a str>)
    ensures
        str_opt(r) == header(header_views(v@), name@),
{
    let ghost f = header_at(header_views(v@), name@);
    let mut i: usize = 0;
    while i < v.len()
        invariant
            i <= v@.len(),
            f == header_at(header_views(v@), name@),
            first_some(i as nat, f) is None,
        decreases v@.len() - i,
    {
        assert(header_views(v@)[i as int] == (v@[i as int].0@, v@[i as int].1@));
        if same(v[i].0.as_str(), name) {
            proof {
                lemma_first_some((i + 1) as nat, v@.len(), f);
            }
            return Some(v[i].1.as_str());
        }
        i = i + 1;
    }
    None
}

/// The name of the header that a line gives.
pub open spec fn line_name(line: Seq<char>) -> Seq<char> {
    lower((split_once(line, ':')->0).0)
}

pub open spec fn line_value(line: Seq<char>) -> Seq<char> {
    trim((split_once(line, ':')->0).1)
}

/// What is wrong with line `k + 1`, if anything: it has no colon, or gives a
/// header again.
pub open spec fn line_rule(lines: Seq<Seq<char>>) -> spec_fn(int) -> Option<Seq<char>> {
    |k: int|
        if split_once(lines[k + 1], ':') is None {
            Some("invalid request header"@)
        } else if exists|j: int| 0 <= j < k && line_name(#[trigger] lines[j + 1]) == line_name(lines[k + 1]) {
            Some("duplicate request header"@)
        } else {
            None
        }
}

/// The headers that lines 1 to `n` give.
pub open spec fn line_headers(lines: Seq<Seq<char>>, n: nat) -> Seq<(Seq<char>, Seq<char>)> {
    Seq::new(n, |k: int| (line_name(lines[k + 1]), line_value(lines[k + 1])))
}

/// What the lines before the body say.
pub struct Head {
    pub method: String,
    pub path: String,
    pub headers: Vec<(String, String)>,
    pub content_length: u64,
}

#[verifier::ext_equal]
pub struct HeadView {
    pub method: Seq<char>,
    pub path: Seq<char>,
    pub headers: Seq<(Seq<char>, Seq<char>)>,
    pub content_length: u64,
}

impl View for Head {
    type V = HeadView;

    open spec fn view(&self) -> HeadView {
        HeadView {
            method: self.method@,
            path: self.path@,
            headers: header_views(self.headers@),
            content_length: self.content_length,
        }
    }
}

/// The number of bytes of the body that the headers announce.
pub open spec fn body_length(h: Seq<(Seq<char>, Seq<char>)>) -> Result<u64, Seq<char>> {
    if header(h, "transfer-encoding"@) is Some {
        Err("unsupported transfer encoding"@)
    } else {
        match header(h, "content-length"@) {
            None => Ok(0),
            Some(s) => match parse_unsigned(s, u64::MAX as nat) {
                None => Err("invalid content length"@),
                Some(n) => if n > MAX_BODY {
                    Err("body too large"@)
                } else {
                    Ok(n as u64)
                },
            },
        }
    }
}

/// What the lines before the body say, or what is wrong with them.
pub open spec fn head_of(s: Seq<char>) -> Result<HeadView, Seq<char>> {
    let lines = header_lines(s);
    let n = (lines.len() - 1) as nat;
    let w = words(lines[0]);
    match first_some(n, line_rule(lines)) {
        Some(e) => Err(e),
        None => match body_length(line_headers(lines, n)) {
            Err(e) => Err(e),
            Ok(content_length) => Ok(
                HeadView {
                    method: if w.len() > 0 {
                        w[0]
                    } else {
                        ""@
                    },
                    path: if w.len() > 1 {
                        w[1]
                    } else {
                        "/"@
                    },
                    headers: line_headers(lines, n),
                    content_length,
                },
            ),
        },
    }
}

fn known_header(v: &Vec<(String, String)>, name: &str) -> (r: bool)
    ensures
        r == exists|j: int| 0 <= j < v@.len() && (#[trigger] v@[j]).0@ == name@,
{
    let mut i: usize = 0;
    while i < v.len()
        invariant
            i <= v@.len(),
            forall|j: int| 0 <= j < i ==> (#[trigger] v@[j]).0@ != name@,
        decreases v@.len() - i,
    {
        if same(v[i].0.as_str(), name) {
            return true;
        }
        i = i + 1;
    }
    false
}

fn parse_headers(lines: &Vec<String>) -> (r: Result<Vec<(String, String)>, String>)
    requires
        lines@.len() >= 1,
    ensures
        match r {
            Ok(h) => {
                &&& first_some((lines@.len() - 1) as nat, line_rule(texts(lines@))) is None
                &&& header_views(h@) == line_headers(texts(lines@), (lines@.len() - 1) as nat)
            },
            Err(e) => first_some((lines@.len() - 1) as nat, line_rule(texts(lines@))) == Some(e@),
        },
{
    let ghost t = texts(lines@);
    let ghost f = line_rule(t);
    let n: usize = lines.len() - 1;
    let mut out: Vec<(String, String)> = Vec::new();
    let mut k: usize = 0;
    while k < n
        invariant
            t == texts(lines@),
            f == line_rule(t),
            n == lines@.len() - 1,
            k <= n,
            out@.len() == k,
            first_some(k as nat, f) is None,
            forall|j: int|
                0 <= j < k ==> (#[trigger] out@[j]).0@ == line_name(t[j + 1]) && out@[j].1@ == line_value(
                    t[j + 1],
                ),
        decreases n - k,
    {
        assert(t[k + 1] == lines@[k + 1]@);
        match text::cut(lines[k + 1].as_str(), ':') {
            None => {
                proof {
                    lemma_first_some((k + 1) as nat, n as nat, f);
                }
                return Err("invalid request header".to_owned());
            },
            Some((name, value)) => {
                let name = lowered(name.as_str());
                if known_header(&out, name.as_str()) {
                    proof {
                        let j = choose|j: int| 0 <= j < out@.len() && (#[trigger] out@[j]).0@ == name@;
                        assert(line_name(t[j + 1]) == line_name(t[k + 1]));
                        lemma_first_some((k + 1) as nat, n as nat, f);
                    }
                    return Err("duplicate request header".to_owned());
                }
                proof {
                    assert forall|j: int| 0 <= j < k implies line_name(#[trigger] t[j + 1]) != line_name(
                        t[k + 1],
                    ) by {
                        assert(out@[j].0@ != name@);
                    }
                    assert(f(k as int) is None);
                }
                out.push((name, trimmed(value.as_str())));
            },
        }
        k = k + 1;
    }
    assert(header_views(out@) == line_headers(t, n as nat));
    Ok(out)
}

fn announced(h: &Vec<(String, String)>) -> (r: Result<u64, String>)
    ensures
        match r {
            Ok(n) => body_length(header_views(h@)) == Ok::<u64, Seq<char>>(n),
            Err(e) => body_length(header_views(h@)) == Err::<u64, Seq<char>>(e@),
        },
{
    if find_header(h, "transfer-encoding").is_some() {
        return Err("unsupported transfer encoding".to_owned());
    }
    match find_header(h, "content-length") {
        None => Ok(0),
        Some(s) => match parse_number(s, u64::MAX) {
            None => Err("invalid content length".to_owned()),
            Some(n) => if n > MAX_BODY {
                Err("body too large".to_owned())
            } else {
                Ok(n)
            },
        },
    }
}

/// What the lines before the body say.
pub fn parse_head(s: &str) -> (r: Result<Head, String>)
    ensures
        match r {
            Ok(h) => head_of(s@) == Ok::<HeadView, Seq<char>>(h@),
            Err(e) => head_of(s@) == Err::<HeadView, Seq<char>>(e@),
        },
{
    let lines = header_lines_of(s);
    assert(texts(lines@)[0] == lines@[0]@);
    let words = words_of(lines[0].as_str());
    let headers = match parse_headers(&lines) {
        Ok(h) => h,
        Err(e) => return Err(e),
    };
    let content_length: u64 = match announced(&headers) {
        Ok(n) => n,
        Err(e) => return Err(e),
    };
    let ghost w = texts(words@);
    let method = if words.len() > 0 {
        assert(w[0] == words@[0]@);
        words[0].clone()
    } else {
        "".to_owned()
    };
    let path = if words.len() > 1 {
        assert(w[1] == words@[1]@);
        words[1].clone()
    } else {
        "/".to_owned()
    };
    Ok(Head { method, path, headers, content_length })
}

// ---------------------------------------------------------------------------
// Requests
// ---------------------------------------------------------------------------

/// A request.
pub struct HttpRequest {
    pub method: String,
    pub path: String,
    pub body: Vec<u8>,
    pub headers: Vec<(String, String)>,
}

#[verifier::ext_equal]
pub struct RequestView {
    pub method: Seq<char>,
    pub path: Seq<char>,
    pub body: Seq<u8>,
    pub headers: Seq<(Seq<char>, Seq<char>)>,
}

impl View for HttpRequest {
    type V = RequestView;

    open spec fn view(&self) -> RequestView {
        RequestView {
            method: self.method@,
            path: self.path@,
            body: self.body@,
            headers: header_views(self.headers@),
        }
    }
}

/// How much of a request has been read.
pub enum Reader {
    /// Bytes before the end of the headers.
    Start(Vec<u8>),
    /// What the headers say, and bytes of the body.
    Body(Head, Vec<u8>),
}

pub enum ReaderView {
    Start(Seq<u8>),
    Body(HeadView, Seq<u8>),
}

impl View for Reader {
    type V = ReaderView;

    open spec fn view(&self) -> ReaderView {
        match self {
            Reader::Start(b) => ReaderView::Start(b@),
            Reader::Body(h, b) => ReaderView::Body(h@, b@),
        }
    }
}

/// What reading on came to.
pub enum Progress {
    More(Reader),
    Failed(String),
    Ready(HttpRequest),
}

pub enum ProgressView {
    More(ReaderView),
    Failed(Seq<char>),
    Ready(RequestView),
}

impl View for Progress {
    type V = ProgressView;

    open spec fn view(&self) -> ProgressView {
        match self {
            Progress::More(r) => ProgressView::More(r@),
            Progress::Failed(e) => ProgressView::Failed(e@),
            Progress::Ready(q) => ProgressView::Ready(q@),
        }
    }
}

/// A request is there once its body is as long as announced; what follows is
/// left out.
pub open spec fn with_body(h: HeadView, body: Seq<u8>) -> ProgressView {
    if body.len() < h.content_length {
        ProgressView::More(ReaderView::Body(h, body))
    } else {
        ProgressView::Ready(
            RequestView {
                method: h.method,
                path: h.path,
                body: body.take(h.content_length as int),
                headers: h.headers,
            },
        )
    }
}

/// What the bytes of a request, from the first, come to.
pub open spec fn from_start(b: Seq<u8>) -> ProgressView {
    match headers_end(b) {
        None => if b.len() > MAX_HEADERS {
            ProgressView::Failed("headers too large"@)
        } else {
            ProgressView::More(ReaderView::Start(b))
        },
        Some(i) => if i > MAX_HEADERS {
            ProgressView::Failed("headers too large"@)
        } else if !valid_utf8(b.take(i)) {
            ProgressView::Failed("headers were not UTF-8"@)
        } else {
            match head_of(decode_utf8(b.take(i))) {
                Err(e) => ProgressView::Failed(e),
                Ok(h) => with_body(h, b.skip(i + 4)),
            }
        },
    }
}

/// How reading goes on with one more piece; an empty one is the end of what
/// the client sends.
pub open spec fn fed(r: ReaderView, chunk: Seq<u8>) -> ProgressView {
    match r {
        ReaderView::Start(b) => if chunk.len() == 0 {
            ProgressView::Failed("client closed during headers"@)
        } else {
            from_start(b + chunk)
        },
        ReaderView::Body(h, b) => if chunk.len() == 0 {
            ProgressView::Failed("client closed during body"@)
        } else {
            with_body(h, b + chunk)
        },
    }
}

fn append(v: &mut Vec<u8>, chunk: &[u8])
    ensures
        final(v)@ == old(v)@ + chunk@,
{
    let ghost base = v@;
    let mut i: usize = 0;
    while i < chunk.len()
        invariant
            i <= chunk@.len(),
            v@ == base + chunk@.take(i as int),
        decreases chunk@.len() - i,
    {
        v.push(chunk[i]);
        assert(chunk@.take(i + 1) == chunk@.take(i as int).push(chunk@[i as int]));
        i = i + 1;
    }
    assert(chunk@.take(i as int) == chunk@);
}

fn slice_bytes(v: &Vec<u8>, from: usize, to: usize) -> (r: Vec<u8>)
    requires
        from <= to <= v@.len(),
    ensures
        r@ == v@.subrange(from as int, to as int),
{
    let mut out: Vec<u8> = Vec::new();
    let mut i: usize = from;
    while i < to
        invariant
            from <= i <= to <= v@.len(),
            out@ == v@.subrange(from as int, i as int),
        decreases to - i,
    {
        out.push(v[i]);
        i = i + 1;
    }
    out
}

fn complete(h: Head, body: Vec<u8>) -> (r: Progress)
    ensures
        r@ == with_body(h@, body@),
{
    let n: u64 = h.content_length;
    if (body.len() as u64) < n {
        return Progress::More(Reader::Body(h, body));
    }
    let kept = slice_bytes(&body, 0, n as usize);
    assert(kept@ == body@.take(n as int));
    Progress::Ready(HttpRequest { method: h.method, path: h.path, body: kept, headers: h.headers })
}

impl Reader {
    /// A request of which nothing has been read.
    pub fn new() -> (r: Reader)
        ensures
            r@ == ReaderView::Start(Seq::empty()),
    {
        Reader::Start(Vec::new())
    }

    /// How reading goes on with one more piece; an empty one is the end of
    /// what the client sends.
    pub fn feed(self, chunk: &[u8]) -> (r: Progress)
        ensures
            r@ == fed(self@, chunk@),
    {
        match self {
            Reader::Start(b) => {
                if chunk.len() == 0 {
                    return Progress::Failed("client closed during headers".to_owned());
                }
                let mut b = b;
                append(&mut b, chunk);
                start(b)
            },
            Reader::Body(h, b) => {
                if chunk.len() == 0 {
                    return Progress::Failed("client closed during body".to_owned());
                }
                let mut b = b;
                append(&mut b, chunk);
                complete(h, b)
            },
        }
    }
}

fn start(b: Vec<u8>) -> (r: Progress)
    ensures
        r@ == from_start(b@),
{
    let i: usize = match find_headers_end(b.as_slice()) {
        None => {
            if b.len() > MAX_HEADERS {
                return Progress::Failed("headers too large".to_owned());
            }
            return Progress::More(Reader::Start(b));
        },
        Some(i) => i,
    };
    if i > MAX_HEADERS {
        return Progress::Failed("headers too large".to_owned());
    }
    let bytes = slice_bytes(&b, 0, i);
    assert(bytes@ == b@.take(i as int));
    let s = match documents::utf8(bytes.as_slice()) {
        Some(s) => s,
        None => return Progress::Failed("headers were not UTF-8".to_owned()),
    };
    match parse_head(s.as_str()) {
        Err(e) => Progress::Failed(e),
        Ok(h) => {
            let body = slice_bytes(&b, i + 4, b.len());
            assert(body@ == b@.skip(i + 4));
            complete(h, body)
        },
    }
}

/// Bytes that follow do not move the end of the headers.
proof fn lemma_end_stays(a: Seq<u8>, b: Seq<u8>)
    requires
        headers_end(a) is Some,
    ensures
        headers_end(a + b) == headers_end(a),
{
    lemma_headers_end_is(a);
    let i = headers_end(a)->0;
    let c = a + b;
    assert forall|j: int| 0 <= j < i implies !ends_headers(c, j) by {
        if ends_headers(c, j) {
            assert(ends_headers(a, j));
        }
    }
    assert(ends_headers(c, i));
    lemma_headers_end(c, i);
}

/// How a request is cut into pieces does not matter: reading two pieces one
/// after the other comes to the same as reading both at once, whenever the
/// first alone is no failure.
pub proof fn law_pieces_do_not_matter(r: ReaderView, a: Seq<u8>, b: Seq<u8>)
    requires
        a.len() > 0,
        b.len() > 0,
    ensures
        fed(r, a) matches ProgressView::More(next) ==> fed(next, b) == fed(r, a + b),
        fed(r, a) is Ready ==> fed(r, a + b) == fed(r, a),
{
    match r {
        ReaderView::Start(x) => {
            assert(x + (a + b) == (x + a) + b);
            let y = x + a;
            if headers_end(y) is Some {
                lemma_end_stays(y, b);
                lemma_headers_end_is(y);
                let i = headers_end(y)->0;
                assert((y + b).take(i) == y.take(i));
                assert((y + b).skip(i + 4) == y.skip(i + 4) + b);
                lemma_body_grows(y, b, i);
            }
        },
        ReaderView::Body(h, x) => {
            assert(x + (a + b) == (x + a) + b);
            if (x + a).len() >= h.content_length {
                assert(((x + a) + b).take(h.content_length as int) == (x + a).take(
                    h.content_length as int,
                ));
            }
        },
    }
}

proof fn lemma_body_grows(y: Seq<u8>, b: Seq<u8>, i: int)
    requires
        0 <= i,
        i + 4 <= y.len(),
    ensures
        forall|h: HeadView|
            #![trigger with_body(h, y.skip(i + 4))]
            y.skip(i + 4).len() >= h.content_length ==> with_body(h, y.skip(i + 4) + b) == with_body(
                h,
                y.skip(i + 4),
            ),
{
    assert forall|h: HeadView|
        #![trigger with_body(h, y.skip(i + 4))]
        y.skip(i + 4).len() >= h.content_length implies with_body(h, y.skip(i + 4) + b) == with_body(
        h,
        y.skip(i + 4),
    ) by {
        assert((y.skip(i + 4) + b).take(h.content_length as int) == y.skip(i + 4).take(
            h.content_length as int,
        ));
    }
}

/// A body is never longer than the limit, nor is one waited for that is.
pub proof fn law_body_is_limited(r: ReaderView, chunk: Seq<u8>)
    requires
        r matches ReaderView::Body(h, _) ==> h.content_length <= MAX_BODY,
    ensures
        fed(r, chunk) matches ProgressView::Ready(q) ==> q.body.len() <= MAX_BODY,
        fed(r, chunk) matches ProgressView::More(ReaderView::Body(h, _)) ==> h.content_length <= MAX_BODY,
{
}

// ---------------------------------------------------------------------------
// Responses
// ---------------------------------------------------------------------------

/// What a response holds.
pub enum Content {
    Value(Json),
    Bytes(Vec<u8>),
}

pub enum ContentView {
    Value(JsonView),
    Bytes(Seq<u8>),
}

impl View for Content {
    type V = ContentView;

    open spec fn view(&self) -> ContentView {
        match self {
            Content::Value(v) => ContentView::Value(v@),
            Content::Bytes(b) => ContentView::Bytes(b@),
        }
    }
}

/// A response. Where `stamp` says so, it tells the operator that the appliance
/// has an owner, and that is then to be recorded.
pub struct HttpResponse {
    pub status: u16,
    pub ctype: &'static str,
    pub content: Content,
    pub stamp: bool,
    pub headers: Vec<(String, String)>,
}

#[verifier::ext_equal]
pub struct ResponseView {
    pub status: u16,
    pub ctype: Seq<char>,
    pub content: ContentView,
    pub stamp: bool,
    pub headers: Seq<(Seq<char>, Seq<char>)>,
}

impl View for HttpResponse {
    type V = ResponseView;

    open spec fn view(&self) -> ResponseView {
        ResponseView {
            status: self.status,
            ctype: self.ctype@,
            content: self.content@,
            stamp: self.stamp,
            headers: header_views(self.headers@),
        }
    }
}

/// The bytes of what a response holds. Nothing is said of the text of a value
/// with a number that is no integer.
pub fn body_bytes(c: &Content) -> (r: Vec<u8>)
    ensures
        match *c {
            Content::Value(v) => integers_only(v) ==> r@ == encode_utf8(json_text(v@)),
            Content::Bytes(b) => r@ == b@,
        },
{
    let mut out: Vec<u8> = Vec::new();
    match c {
        Content::Value(v) => {
            let s = json::encode(v);
            append(&mut out, s.as_str().as_bytes());
        },
        Content::Bytes(b) => append(&mut out, b.as_slice()),
    }
    out
}

/// The phrase of a status.
pub open spec fn reason(status: u16) -> Seq<char> {
    if status == 200 {
        "OK"@
    } else if status == 400 {
        "Bad Request"@
    } else if status == 401 {
        "Unauthorized"@
    } else if status == 403 {
        "Forbidden"@
    } else if status == 404 {
        "Not Found"@
    } else if status == 405 {
        "Method Not Allowed"@
    } else if status == 409 {
        "Conflict"@
    } else if status == 415 {
        "Unsupported Media Type"@
    } else if status == 429 {
        "Too Many Requests"@
    } else if status == 502 {
        "Bad Gateway"@
    } else if status == 503 {
        "Service Unavailable"@
    } else {
        "Error"@
    }
}

fn phrase(status: u16) -> (r: &'static str)
    ensures
        r@ == reason(status),
{
    match status {
        200 => "OK",
        400 => "Bad Request",
        401 => "Unauthorized",
        403 => "Forbidden",
        404 => "Not Found",
        405 => "Method Not Allowed",
        409 => "Conflict",
        415 => "Unsupported Media Type",
        429 => "Too Many Requests",
        502 => "Bad Gateway",
        503 => "Service Unavailable",
        _ => "Error",
    }
}

pub open spec fn header_text(h: Seq<(Seq<char>, Seq<char>)>) -> spec_fn(int) -> Seq<char> {
    |i: int| h[i].0 + ": "@ + h[i].1 + "\r\n"@
}

/// What stands before the body of a response.
pub open spec fn head_text(r: ResponseView, length: nat) -> Seq<char> {
    "HTTP/1.1 "@ + decimal(r.status as nat) + " "@ + reason(r.status) + "\r\nContent-Type: "@ + r.ctype
        + "\r\nContent-Length: "@ + decimal(length)
        + "\r\nConnection: close\r\nCache-Control: no-store\r\nX-Content-Type-Options: nosniff\r\nContent-Security-Policy: default-src 'self'; style-src 'self' 'unsafe-inline'; frame-ancestors 'none'; base-uri 'none'\r\n"@
        + concat(r.headers.len(), header_text(r.headers)) + "\r\n"@
}

fn write_headers(v: &Vec<(String, String)>) -> (r: String)
    ensures
        r@ == concat(v@.len(), header_text(header_views(v@))),
{
    let ghost f = header_text(header_views(v@));
    let mut out = String::new();
    let mut i: usize = 0;
    while i < v.len()
        invariant
            i <= v@.len(),
            f == header_text(header_views(v@)),
            out@ == concat(i as nat, f),
        decreases v@.len() - i,
    {
        assert(header_views(v@)[i as int] == (v@[i as int].0@, v@[i as int].1@));
        let line = v[i].0.clone().concat(": ").concat(v[i].1.as_str()).concat("\r\n");
        out.append(line.as_str());
        i = i + 1;
    }
    out
}

/// What stands before the body of a response, where that has `length` bytes.
pub fn write_response(r: &HttpResponse, length: usize) -> (s: String)
    ensures
        s@ == head_text(r@, length as nat),
{
    let status = print(r.status as u64);
    let size = print(length as u64);
    let headers = write_headers(&r.headers);
    "HTTP/1.1 ".to_owned().concat(status.as_str()).concat(" ").concat(phrase(r.status)).concat(
        "\r\nContent-Type: ",
    ).concat(r.ctype).concat("\r\nContent-Length: ").concat(size.as_str()).concat(
        "\r\nConnection: close\r\nCache-Control: no-store\r\nX-Content-Type-Options: nosniff\r\nContent-Security-Policy: default-src 'self'; style-src 'self' 'unsafe-inline'; frame-ancestors 'none'; base-uri 'none'\r\n",
    ).concat(headers.as_str()).concat("\r\n")
}

// ---------------------------------------------------------------------------
// What is read
// ---------------------------------------------------------------------------

/// The headers end at the first empty line.
pub proof fn law_headers_end_at_the_first_empty_line(b: Seq<u8>, i: int)
    requires
        0 <= i,
        i + 4 <= b.len(),
        b[i] == 13 && b[i + 1] == 10 && b[i + 2] == 13 && b[i + 3] == 10,
        forall|j: int| 0 <= j < i ==> !(#[trigger] b[j] == 13 && b[j + 1] == 10 && b[j + 2] == 13 && b[j + 3] == 10),
    ensures
        headers_end(b) == Some(i),
{
    let f = |k: int|
        if ends_headers(b, k) {
            Some(k)
        } else {
            None
        };
    assert forall|j: int| 0 <= j < i implies #[trigger] f(j) is None by {
        assert(!(b[j] == 13 && b[j + 1] == 10 && b[j + 2] == 13 && b[j + 3] == 10));
    }
    assert(ends_headers(b, i));
    lemma_first_some_is(b.len(), f, i);
    assert(headers_end(b) == first_some(b.len(), f));
}

/// Without an empty line the headers have no end.
pub proof fn law_headers_go_on_without_an_empty_line(b: Seq<u8>)
    requires
        forall|j: int|
            0 <= j && j + 4 <= b.len() ==> !(#[trigger] b[j] == 13 && b[j + 1] == 10 && b[j + 2] == 13 && b[j + 3]
                == 10),
    ensures
        headers_end(b) is None,
        from_start(b) == (if b.len() > 65536 {
            ProgressView::Failed("headers too large"@)
        } else {
            ProgressView::More(ReaderView::Start(b))
        }),
{
    let f = |k: int|
        if ends_headers(b, k) {
            Some(k)
        } else {
            None
        };
    assert forall|j: int| 0 <= j < b.len() implies #[trigger] f(j) is None by {
        if ends_headers(b, j) {
            assert(!(b[j] == 13 && b[j + 1] == 10 && b[j + 2] == 13 && b[j + 3] == 10));
        }
    }
    lemma_first_some_none(b.len(), f);
    assert(headers_end(b) == first_some(b.len(), f));
}

/// A line ends where a carriage return comes before a line feed.
proof fn lemma_line_behind(a: Seq<char>, rest: Seq<char>)
    requires
        !a.contains('\r'),
    ensures
        line_end(a + seq!['\r', '\n'] + rest) == a.len(),
        line_end(a) == a.len(),
    decreases a.len(),
{
    let s = a + seq!['\r', '\n'] + rest;
    if a.len() > 0 {
        let t = a.skip(1);
        assert(!t.contains('\r')) by {
            if t.contains('\r') {
                let k = choose|k: int| 0 <= k < t.len() && t[k] == '\r';
                assert(a[k + 1] == '\r');
            }
        }
        lemma_line_behind(t, rest);
        assert(s.skip(1) =~= t + seq!['\r', '\n'] + rest);
        assert(a.contains(a[0]));
        assert(s[0] == a[0]);
        assert(!ends_line(s, 0));
        assert(!ends_line(a, 0));
    } else {
        assert(ends_line(s, 0));
    }
}

/// The lines of a text are the first and those of what stands behind its end;
/// and what has no line end is one line.
pub proof fn law_lines_end_with_a_carriage_return_and_a_line_feed(a: Seq<char>, rest: Seq<char>)
    requires
        !a.contains('\r'),
    ensures
        header_lines(a) == seq![a],
        header_lines(a + "\r\n"@ + rest) == seq![a] + header_lines(rest),
{
    reveal_strlit("\r\n");
    assert("\r\n"@ =~= seq!['\r', '\n']);
    lemma_line_behind(a, rest);
    let s = a + seq!['\r', '\n'] + rest;
    assert(s.take(a.len() as int) =~= a);
    assert(s.skip(a.len() as int + 2) =~= rest);
}

/// What one header line gives: its name in lower case, and its value without
/// white space at its ends.
pub proof fn law_header_line(name: Seq<char>, value: Seq<char>)
    requires
        !name.contains(':'),
    ensures
        line_name(name + ":"@ + value) == lower(name),
        line_value(name + ":"@ + value) == trim(value),
{
    reveal_strlit(":");
    assert(":"@ =~= seq![':']);
    lemma_split_once(name, ':', value);
}

/// A header is found by its name: the first of that name; and none where there
/// is none.
pub proof fn law_headers_are_found(h: Seq<(Seq<char>, Seq<char>)>, name: Seq<char>, i: int)
    requires
        0 <= i <= h.len(),
        forall|j: int| 0 <= j < i ==> (#[trigger] h[j]).0 != name,
    ensures
        i < h.len() && h[i].0 == name ==> header(h, name) == Some(h[i].1),
        i == h.len() ==> header(h, name) is None,
{
    let f = header_at(h, name);
    if i < h.len() && h[i].0 == name {
        lemma_first_some_is(h.len(), f, i);
    }
    lemma_first_some_none(h.len(), f);
}

/// The lines before a body are read where each behind the first has a colon, no
/// two of them give the same header, no transfer encoding is asked for, and the
/// length of the body, if it is told, is a number of at most 1048576. What is
/// read is the method and the path of the first line, and the header of every
/// other line in its place.
pub proof fn law_sound_head_is_read(s: Seq<char>, length: nat)
    requires
        forall|k: int| 1 <= k < header_lines(s).len() ==> (#[trigger] header_lines(s)[k]).contains(':'),
        forall|j: int, k: int|
            1 <= j < k < header_lines(s).len() ==> line_name(#[trigger] header_lines(s)[j]) != line_name(
                #[trigger] header_lines(s)[k],
            ),
        ({
            let h = line_headers(header_lines(s), (header_lines(s).len() - 1) as nat);
            &&& header(h, "transfer-encoding"@) is None
            &&& header(h, "content-length"@) is None ==> length == 0
            &&& header(h, "content-length"@) is Some ==> parse_unsigned(
                header(h, "content-length"@)->0,
                u64::MAX as nat,
            ) == Some(length)
        }),
        length <= 1048576,
    ensures
        head_of(s) matches Ok(h) && {
            let w = words(header_lines(s)[0]);
            &&& h.method == (if w.len() > 0 {
                w[0]
            } else {
                Seq::empty()
            })
            &&& w.len() > 1 ==> h.path == w[1]
            &&& w.len() <= 1 ==> h.path == "/"@
            &&& h.content_length == length
            &&& h.headers.len() == header_lines(s).len() - 1
            &&& forall|k: int|
                1 <= k < header_lines(s).len() ==> h.headers[k - 1] == (
                    line_name(#[trigger] header_lines(s)[k]),
                    line_value(header_lines(s)[k]),
                )
        },
{
    reveal_strlit("");
    assert(""@ =~= Seq::<char>::empty());
    lemma_lines_exist(s);
    let lines = header_lines(s);
    let n = (lines.len() - 1) as nat;
    let f = line_rule(lines);
    assert forall|k: int| 0 <= k < n implies #[trigger] f(k) is None by {
        assert(lines[k + 1].contains(':'));
        assert forall|j: int| 0 <= j < k implies line_name(#[trigger] lines[j + 1]) != line_name(lines[k + 1]) by {}
    }
    lemma_first_some_none(n, f);
}

/// There is a first line.
proof fn lemma_lines_exist(s: Seq<char>)
    ensures
        header_lines(s).len() >= 1,
{
}

/// A line without a colon, a header that is given twice, a transfer encoding and
/// a body that is too long are refused.
pub proof fn law_unsound_head_is_refused(s: Seq<char>)
    requires
        ({
            let lines = header_lines(s);
            let h = line_headers(lines, (lines.len() - 1) as nat);
            ||| exists|k: int| 1 <= k < lines.len() && !(#[trigger] lines[k]).contains(':')
            ||| exists|j: int, k: int|
                1 <= j < k < lines.len() && line_name(#[trigger] lines[j]) == line_name(#[trigger] lines[k])
            ||| header(h, "transfer-encoding"@) is Some
            ||| header(h, "content-length"@) is Some && match parse_unsigned(
                header(h, "content-length"@)->0,
                u64::MAX as nat,
            ) {
                Some(n) => n > 1048576,
                None => true,
            }
        }),
    ensures
        head_of(s) is Err,
{
    let lines = header_lines(s);
    let n = (lines.len() - 1) as nat;
    let f = line_rule(lines);
    lemma_first_some_none(n, f);
    if first_some(n, f) is None {
        if exists|k: int| 1 <= k < lines.len() && !(#[trigger] lines[k]).contains(':') {
            let k = choose|k: int| 1 <= k < lines.len() && !(#[trigger] lines[k]).contains(':');
            assert(f(k - 1) is None);
        }
        if exists|j: int, k: int|
            1 <= j < k < lines.len() && line_name(#[trigger] lines[j]) == line_name(#[trigger] lines[k]) {
            let (j, k) = choose|j: int, k: int|
                1 <= j < k < lines.len() && line_name(#[trigger] lines[j]) == line_name(#[trigger] lines[k]);
            assert(lines[(j - 1) + 1] == lines[j]);
            assert(f(k - 1) is None);
        }
    }
}

/// A request is there just when as many bytes have come behind its headers as
/// these announce; those are its body, and the rest is what the headers say.
pub proof fn law_request_is_there_with_its_body(b: Seq<u8>, i: int, h: HeadView)
    requires
        headers_end(b) == Some(i),
        0 <= i <= 65536,
        valid_utf8(b.take(i)),
        head_of(decode_utf8(b.take(i))) == Ok::<HeadView, Seq<char>>(h),
        i + 4 <= b.len(),
    ensures
        b.len() >= i + 4 + h.content_length ==> from_start(b) == ProgressView::Ready(
            RequestView {
                method: h.method,
                path: h.path,
                body: b.subrange(i + 4, i + 4 + h.content_length),
                headers: h.headers,
            },
        ),
        b.len() < i + 4 + h.content_length ==> from_start(b) == ProgressView::More(
            ReaderView::Body(h, b.skip(i + 4)),
        ),
{
    if b.len() >= i + 4 + h.content_length {
        assert(b.skip(i + 4).take(h.content_length as int) =~= b.subrange(i + 4, i + 4 + h.content_length));
    }
}

/// The body of a request goes on with every piece that comes.
pub proof fn law_body_goes_on(h: HeadView, b: Seq<u8>, chunk: Seq<u8>)
    requires
        chunk.len() > 0,
    ensures
        b.len() + chunk.len() >= h.content_length ==> fed(ReaderView::Body(h, b), chunk) == ProgressView::Ready(
            RequestView {
                method: h.method,
                path: h.path,
                body: (b + chunk).take(h.content_length as int),
                headers: h.headers,
            },
        ),
        b.len() + chunk.len() < h.content_length ==> fed(ReaderView::Body(h, b), chunk) == ProgressView::More(
            ReaderView::Body(h, b + chunk),
        ),
        fed(ReaderView::Body(h, b), Seq::empty()) is Failed,
        fed(ReaderView::Start(b), Seq::empty()) is Failed,
{
}

/// The phrases of the statuses that are sent.
pub proof fn law_statuses_have_their_phrases()
    ensures
        reason(200) == "OK"@,
        reason(400) == "Bad Request"@,
        reason(401) == "Unauthorized"@,
        reason(403) == "Forbidden"@,
        reason(404) == "Not Found"@,
        reason(405) == "Method Not Allowed"@,
        reason(409) == "Conflict"@,
        reason(429) == "Too Many Requests"@,
        reason(502) == "Bad Gateway"@,
        reason(503) == "Service Unavailable"@,
{
}

/// The lines before the body of a response start with the status and its phrase,
/// tell the type and the length of the body, and end with an empty line; one
/// header more is one line more, before that empty one.
pub proof fn law_response_begins_with_its_status(r: ResponseView, length: nat, name: Seq<char>, value: Seq<char>)
    ensures
        ({
            let first = "HTTP/1.1 "@ + decimal(r.status as nat) + " "@ + reason(r.status) + "\r\nContent-Type: "@
                + r.ctype + "\r\nContent-Length: "@ + decimal(length);
            let text = head_text(r, length);
            let more = head_text(ResponseView { headers: r.headers.push((name, value)), ..r }, length);
            let cut = text.len() - "\r\n"@.len();
            &&& text.len() >= first.len() && text.take(first.len() as int) == first
            &&& text.skip(cut) == "\r\n"@
            &&& more == text.take(cut) + (name + ": "@ + value + "\r\n"@) + "\r\n"@
        }),
{
    let first = "HTTP/1.1 "@ + decimal(r.status as nat) + " "@ + reason(r.status) + "\r\nContent-Type: "@ + r.ctype
        + "\r\nContent-Length: "@ + decimal(length);
    let text = head_text(r, length);
    let longer = r.headers.push((name, value));
    let more = head_text(ResponseView { headers: longer, ..r }, length);
    let cut = text.len() - "\r\n"@.len();
    assert(text.take(first.len() as int) =~= first);
    assert(text.skip(cut) =~= "\r\n"@);
    lemma_same_headers(r.headers, longer, r.headers.len());
    assert(concat(longer.len(), header_text(longer)) == concat(r.headers.len(), header_text(r.headers)) + (name
        + ": "@ + value + "\r\n"@));
    assert(more =~= text.take(cut) + (name + ": "@ + value + "\r\n"@) + "\r\n"@);
}

/// Headers that are the same up to a place have the same text up to there.
proof fn lemma_same_headers(a: Seq<(Seq<char>, Seq<char>)>, b: Seq<(Seq<char>, Seq<char>)>, n: nat)
    requires
        n <= a.len(),
        n <= b.len(),
        forall|i: int| 0 <= i < n ==> a[i] == b[i],
    ensures
        concat(n, header_text(a)) == concat(n, header_text(b)),
    decreases n,
{
    if n > 0 {
        lemma_same_headers(a, b, (n - 1) as nat);
        assert(header_text(a)(n - 1) == header_text(b)(n - 1));
    }
}

} // verus!
