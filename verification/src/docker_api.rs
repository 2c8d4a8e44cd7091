//! Requests to the Docker engine, and its replies.

use vstd::prelude::*;
use vstd::utf8::encode_utf8;

use crate::json::{
    json_bytes, json_decoding, json_encoding, json_insert, json_map, json_null, json_number,
    json_object, json_parse, json_text, json_text_entry, text_entry, JsonView,
};
use crate::numbers::{
    decimal, decimal_reads_back, decimal_text, number, parse_number, parse_u16_text, NumberError,
};
use crate::platform::{version, version_text, Platform};
use crate::text::{
    cut_first, last_at, last_place_is_the_last, lines, lines_of, lower_text, lowered, rfind_char, same_ignoring_case,
    same_text, split_once, text_is_cut_at_the_first, texts, trim, trimmed, words, words_of,
};
use crate::utf8::{readable, readable_text};

verus! {

/// Why the Docker engine could not be asked, or what it answered.
#[derive(Debug)]
pub enum DockerApiError {
    Unsupported,
    InvalidResponse,
    MissingStatusLine,
    MissingStatusCode,
    InvalidStatus(NumberError),
    InvalidChunks,
    InvalidChunkSize(NumberError),
    TruncatedChunks,
    Status { status: u16, message: String },
}

#[verifier::ext_equal]
pub enum ApiErrorView {
    Unsupported,
    InvalidResponse,
    MissingStatusLine,
    MissingStatusCode,
    InvalidStatus(NumberError),
    InvalidChunks,
    InvalidChunkSize(NumberError),
    TruncatedChunks,
    Status { status: u16, message: Seq<char> },
}

impl View for DockerApiError {
    type V = ApiErrorView;

    open spec fn view(&self) -> ApiErrorView {
        match self {
            DockerApiError::Unsupported => ApiErrorView::Unsupported,
            DockerApiError::InvalidResponse => ApiErrorView::InvalidResponse,
            DockerApiError::MissingStatusLine => ApiErrorView::MissingStatusLine,
            DockerApiError::MissingStatusCode => ApiErrorView::MissingStatusCode,
            DockerApiError::InvalidStatus(e) => ApiErrorView::InvalidStatus(*e),
            DockerApiError::InvalidChunks => ApiErrorView::InvalidChunks,
            DockerApiError::InvalidChunkSize(e) => ApiErrorView::InvalidChunkSize(*e),
            DockerApiError::TruncatedChunks => ApiErrorView::TruncatedChunks,
            DockerApiError::Status { status, message } => ApiErrorView::Status {
                status: *status,
                message: message@,
            },
        }
    }
}

impl ApiErrorView {
    /// The error in words.
    pub open spec fn words(self) -> Seq<char> {
        match self {
            ApiErrorView::Unsupported =>
                "Docker API over Unix socket is only supported on Unix in this build"@,
            ApiErrorView::InvalidResponse => "invalid Docker HTTP response"@,
            ApiErrorView::MissingStatusLine => "missing Docker HTTP status line"@,
            ApiErrorView::MissingStatusCode => "missing Docker HTTP status code"@,
            ApiErrorView::InvalidStatus(e) => e.words(),
            ApiErrorView::InvalidChunks => "invalid chunked Docker response"@,
            ApiErrorView::InvalidChunkSize(e) => e.words(),
            ApiErrorView::TruncatedChunks => "truncated chunked Docker response"@,
            ApiErrorView::Status { status, message } => "Docker API returned "@ + decimal(
                status as nat,
            ) + ": "@ + message,
        }
    }
}

impl DockerApiError {
    /// The error in words.
    pub fn message(&self) -> (r: String)
        ensures
            r@ == self@.words(),
    {
        match self {
            DockerApiError::Unsupported =>
                "Docker API over Unix socket is only supported on Unix in this build".to_owned(),
            DockerApiError::InvalidResponse => "invalid Docker HTTP response".to_owned(),
            DockerApiError::MissingStatusLine => "missing Docker HTTP status line".to_owned(),
            DockerApiError::MissingStatusCode => "missing Docker HTTP status code".to_owned(),
            DockerApiError::InvalidStatus(e) => e.message().to_owned(),
            DockerApiError::InvalidChunks => "invalid chunked Docker response".to_owned(),
            DockerApiError::InvalidChunkSize(e) => e.message().to_owned(),
            DockerApiError::TruncatedChunks => "truncated chunked Docker response".to_owned(),
            DockerApiError::Status { status, message } => {
                let mut out = "Docker API returned ".to_owned();
                let code = decimal_text(*status as u64);
                out.append(code.as_str());
                out.append(": ");
                out.append(message.as_str());
                out
            },
        }
    }
}

/// A request to the Docker engine.
#[derive(Debug)]
pub struct DockerRequest {
    pub method: String,
    pub path: String,
    pub body: Vec<u8>,
}

#[verifier::ext_equal]
pub struct RequestView {
    pub method: Seq<char>,
    pub path: Seq<char>,
    pub body: Seq<u8>,
}

impl View for DockerRequest {
    type V = RequestView;

    open spec fn view(&self) -> RequestView {
        RequestView { method: self.method@, path: self.path@, body: self.body@ }
    }
}

/// A request without a body.
pub open spec fn bare_request(method: Seq<char>, path: Seq<char>) -> RequestView {
    RequestView { method, path, body: Seq::empty() }
}

impl RequestView {
    /// The head of the request as it is sent.
    pub open spec fn head(self) -> Seq<char> {
        self.method + " "@ + self.path + " HTTP/1.1\r\nHost: docker\r\nUser-Agent: remiaft/"@
            + version() + "\r\nContent-Type: application/json\r\nContent-Length: "@ + decimal(
            self.body.len(),
        ) + "\r\nConnection: close\r\n\r\n"@
    }

    /// The request as it is sent.
    pub open spec fn wire(self) -> Seq<u8> {
        encode_utf8(self.head()) + self.body
    }
}

impl DockerRequest {
    /// A request without a body.
    pub fn bare(method: &str, path: String) -> (r: Self)
        ensures
            r@ == bare_request(method@, path@),
    {
        let r = DockerRequest { method: method.to_owned(), path, body: Vec::new() };
        assert(r@.body =~= Seq::<u8>::empty());
        r
    }

    /// A request with a JSON body.
    pub fn with_json(method: &str, path: String, body: &serde_json::Value) -> (r: Self)
        ensures
            r@ == (RequestView {
                method: method@,
                path: path@,
                body: json_encoding(crate::json::json_view(*body)),
            }),
    {
        DockerRequest { method: method.to_owned(), path, body: json_bytes(body) }
    }

    /// The bytes to send.
    pub fn to_bytes(&self) -> (r: Vec<u8>)
        ensures
            r@ == self@.wire(),
    {
        let mut head = self.method.clone();
        head.append(" ");
        head.append(self.path.as_str());
        head.append(" HTTP/1.1\r\nHost: docker\r\nUser-Agent: remiaft/");
        head.append(version_text());
        head.append("\r\nContent-Type: application/json\r\nContent-Length: ");
        let length = decimal_text(self.body.len() as u64);
        head.append(length.as_str());
        head.append("\r\nConnection: close\r\n\r\n");
        let mut out: Vec<u8> = Vec::new();
        out.extend_from_slice(head.as_str().as_bytes());
        out.extend_from_slice(self.body.as_slice());
        assert(out@ =~= self@.wire());
        out
    }
}

/// The line that is kept of a request.
pub open spec fn audit_entry(
    timestamp: u64,
    pid: u32,
    method: Seq<char>,
    path: Seq<char>,
    status: Option<u16>,
    error: Option<Seq<char>>,
) -> JsonView {
    JsonView::Object(
        map![
            "timestamp_unix"@ => JsonView::Number(decimal(timestamp as nat)),
            "pid"@ => JsonView::Number(decimal(pid as nat)),
            "method"@ => JsonView::Text(method),
            "path"@ => JsonView::Text(path),
            "status"@ => match status {
                Some(code) => JsonView::Number(decimal(code as nat)),
                None => JsonView::Null,
            },
            "error"@ => match error {
                Some(text) => JsonView::Text(text),
                None => JsonView::Null,
            },
        ],
    )
}

/// The line to keep of a request.
pub fn audit_line(
    timestamp: u64,
    pid: u32,
    method: &str,
    path: &str,
    status: Option<u16>,
    error: Option<&str>,
) -> (r: Vec<u8>)
    ensures
        r@ == json_encoding(
            audit_entry(
                timestamp,
                pid,
                method@,
                path@,
                status,
                match error {
                    Some(text) => Some(text@),
                    None => None,
                },
            ),
        ).push(10u8),
{
    let mut entry = json_map();
    json_insert(&mut entry, "timestamp_unix".to_owned(), json_number(timestamp));
    json_insert(&mut entry, "pid".to_owned(), json_number(pid as u64));
    json_insert(&mut entry, "method".to_owned(), json_text(method.to_owned()));
    json_insert(&mut entry, "path".to_owned(), json_text(path.to_owned()));
    let status_value = match status {
        Some(code) => json_number(code as u64),
        None => json_null(),
    };
    json_insert(&mut entry, "status".to_owned(), status_value);
    let error_value = match error {
        Some(text) => json_text(text.to_owned()),
        None => json_null(),
    };
    json_insert(&mut entry, "error".to_owned(), error_value);
    let value = json_object(entry);
    let mut out = json_bytes(&value);
    out.push(10u8);
    out
}

/// The engine, by the socket that it listens on.
#[derive(Debug)]
pub struct DockerClient {
    pub socket_path: String,
}

/// The path that tells about an image.
pub open spec fn image_path(image: Seq<char>) -> Seq<char> {
    "/images/"@ + percent_encoded(encode_utf8(image), true) + "/json"@
}

/// The path that pulls an image.
pub open spec fn pull_path(image: Seq<char>) -> Seq<char> {
    let (name, tag) = image_parts(image);
    let base = "/images/create?fromImage="@ + percent_encoded(encode_utf8(name), false);
    match tag {
        Some(tag) => base + "&tag="@ + percent_encoded(encode_utf8(tag), false),
        None => base,
    }
}

impl DockerClient {
    /// The engine of this machine, which only Unix has.
    pub fn connect(platform: Platform) -> (r: Result<Self, DockerApiError>)
        ensures
            match r {
                Ok(client) => platform == Platform::Unix && client.socket_path@
                    == "/var/run/docker.sock"@,
                Err(e) => platform == Platform::Windows && e@ == ApiErrorView::Unsupported,
            },
    {
        match platform {
            Platform::Unix => Ok(DockerClient { socket_path: "/var/run/docker.sock".to_owned() }),
            Platform::Windows => Err(DockerApiError::Unsupported),
        }
    }

    /// The request that asks whether the engine is there.
    pub fn ping(&self) -> (r: DockerRequest)
        ensures
            r@ == bare_request("GET"@, "/_ping"@),
    {
        DockerRequest::bare("GET", "/_ping".to_owned())
    }

    /// The request that asks whether an image is there.
    pub fn image_exists(&self, image: &str) -> (r: DockerRequest)
        ensures
            r@ == bare_request("GET"@, image_path(image@)),
    {
        let mut path = "/images/".to_owned();
        let code = encode_path(image);
        path.append(code.as_str());
        path.append("/json");
        DockerRequest::bare("GET", path)
    }

    /// The request that pulls an image.
    pub fn pull_image(&self, image: &str) -> (r: DockerRequest)
        ensures
            r@ == bare_request("POST"@, pull_path(image@)),
    {
        let (name, tag) = split_image(image);
        let mut path = "/images/create?fromImage=".to_owned();
        let code = encode_query(name);
        path.append(code.as_str());
        if let Some(tag) = tag {
            path.append("&tag=");
            let code = encode_query(tag);
            path.append(code.as_str());
        }
        DockerRequest::bare("POST", path)
    }

    /// A request to do something, without more to say.
    pub fn post_empty(&self, path: &str) -> (r: DockerRequest)
        ensures
            r@ == bare_request("POST"@, path@),
    {
        DockerRequest::bare("POST", path.to_owned())
    }
}

/// What the engine answered.
#[derive(Debug)]
pub struct DockerResponse {
    pub status: u16,
    pub body: Vec<u8>,
}

#[verifier::ext_equal]
pub struct ResponseView {
    pub status: u16,
    pub body: Seq<u8>,
}

impl View for DockerResponse {
    type V = ResponseView;

    open spec fn view(&self) -> ResponseView {
        ResponseView { status: self.status, body: self.body@ }
    }
}

/// Whether the bytes stand at the position.
pub open spec fn stands_at(bytes: Seq<u8>, mark: Seq<u8>, at: int) -> bool {
    0 <= at && at + mark.len() <= bytes.len() && bytes.subrange(at, at + mark.len()) == mark
}

/// The first position from `from` on at which the mark stands.
pub open spec fn first_mark(bytes: Seq<u8>, mark: Seq<u8>, from: int) -> Option<int>
    decreases bytes.len() - from,
{
    if from < 0 || from + mark.len() > bytes.len() {
        None
    } else if stands_at(bytes, mark, from) {
        Some(from)
    } else if from == bytes.len() {
        None
    } else {
        first_mark(bytes, mark, from + 1)
    }
}

/// Finds the first position from `from` on at which the mark stands.
pub fn find_mark(bytes: &[u8], mark: &[u8], from: usize) -> (r: Option<usize>)
    requires
        from <= bytes@.len(),
        mark@.len() > 0,
    ensures
        match r {
            Some(at) => first_mark(bytes@, mark@, from as int) == Some(at as int) && from <= at
                && at + mark@.len() <= bytes@.len(),
            None => first_mark(bytes@, mark@, from as int) == None::<int>,
        },
{
    let n: usize = bytes.len();
    let m: usize = mark.len();
    let mut at: usize = from;
    while m <= n - at
        invariant
            from <= at <= n,
            n == bytes@.len(),
            m == mark@.len(),
            m > 0,
            first_mark(bytes@, mark@, from as int) == first_mark(bytes@, mark@, at as int),
        decreases n - at,
    {
        let mut k: usize = 0;
        while k < m && bytes[at + k] == mark[k]
            invariant
                k <= m,
                m <= n - at,
                at <= n,
                n == bytes@.len(),
                m == mark@.len(),
                forall|j: int| 0 <= j < k ==> bytes@[at + j] == mark@[j],
            decreases m - k,
        {
            k = k + 1;
        }
        if k == m {
            assert(bytes@.subrange(at as int, at + m) =~= mark@);
            return Some(at);
        }
        proof {
            assert(bytes@[at + k] != mark@[k as int]);
            assert(bytes@.subrange(at as int, at + m)[k as int] != mark@[k as int]);
        }
        at = at + 1;
    }
    None
}

/// What becomes of a body that was sent in chunks.
#[verifier::ext_equal]
pub enum ChunksView {
    Whole(Seq<u8>),
    Failed(ApiErrorView),
    /// A chunk's size or the end of its data lies beyond the body.
    Overrun,
}

/// The text between two positions of a body.
pub open spec fn text_between(body: Seq<u8>, from: int, to: int) -> Seq<char> {
    trimmed(readable(body.subrange(from, to)))
}

/// The data of the chunks from a position on, behind the data before them.
/// Each chunk is its size in hexadecimal digits, a line end, the data and a
/// line end. A chunk of size zero is the last.
pub open spec fn chunks_from(body: Seq<u8>, index: int, data: Seq<u8>) -> ChunksView
    decreases body.len() - index,
{
    if index < 0 || index > body.len() {
        ChunksView::Overrun
    } else {
        match first_mark(body, seq![13u8, 10u8], index) {
            None => ChunksView::Failed(ApiErrorView::InvalidChunks),
            Some(end) => if end < index || end + 2 > body.len() {
                ChunksView::Overrun
            } else {
                match number(text_between(body, index, end), 16, usize::MAX as nat) {
                    Err(e) => ChunksView::Failed(ApiErrorView::InvalidChunkSize(e)),
                    Ok(size) => if size == 0 {
                        ChunksView::Whole(data)
                    } else if end + 2 + size > usize::MAX {
                        ChunksView::Overrun
                    } else if end + 2 + size > body.len() {
                        ChunksView::Failed(ApiErrorView::TruncatedChunks)
                    } else if end + 2 + size + 2 > body.len() {
                        ChunksView::Overrun
                    } else {
                        chunks_from(
                            body,
                            end + 2 + size + 2,
                            data + body.subrange(end + 2, end + 2 + size),
                        )
                    },
                }
            },
        }
    }
}

/// The data of a body that was sent in chunks.
pub open spec fn unchunked(body: Seq<u8>) -> ChunksView {
    chunks_from(body, 0, Seq::empty())
}

fn line_end() -> (r: Vec<u8>)
    ensures
        r@ == seq![13u8, 10u8],
{
    let r: Vec<u8> = vec![13u8, 10u8];
    assert(r@ =~= seq![13u8, 10u8]);
    r
}

enum Chunks {
    Whole(Vec<u8>),
    Failed(DockerApiError),
    Overrun,
}

impl Chunks {
    spec fn model(self) -> ChunksView {
        match self {
            Chunks::Whole(data) => ChunksView::Whole(data@),
            Chunks::Failed(e) => ChunksView::Failed(e@),
            Chunks::Overrun => ChunksView::Overrun,
        }
    }
}

fn read_chunks(body: &[u8]) -> (r: Chunks)
    ensures
        r.model() == unchunked(body@),
{
    let mark = line_end();
    let n: usize = body.len();
    let mut data: Vec<u8> = Vec::new();
    let mut index: usize = 0;
    assert(data@ =~= Seq::<u8>::empty());
    loop
        invariant
            index <= n,
            n == body@.len(),
            mark@ == seq![13u8, 10u8],
            unchunked(body@) == chunks_from(body@, index as int, data@),
        decreases n - index,
    {
        let end: usize = match find_mark(body, mark.as_slice(), index) {
            Some(end) => end,
            None => return Chunks::Failed(DockerApiError::InvalidChunks),
        };
        let text = readable_text(vstd::slice::slice_subrange(body, index, end));
        let size: u64 = match parse_number(trim(text.as_str()), 16, usize::MAX as u64) {
            Ok(size) => size,
            Err(e) => return Chunks::Failed(DockerApiError::InvalidChunkSize(e)),
        };
        let from: usize = end + 2;
        if size == 0 {
            return Chunks::Whole(data);
        }
        if size > (usize::MAX - from) as u64 {
            return Chunks::Overrun;
        }
        let size: usize = size as usize;
        if size > n - from {
            return Chunks::Failed(DockerApiError::TruncatedChunks);
        }
        let to: usize = from + size;
        let ghost before = data@;
        data.extend_from_slice(vstd::slice::slice_subrange(body, from, to));
        assert(data@ =~= before + body@.subrange(from as int, to as int));
        if n - to < 2 {
            return Chunks::Overrun;
        }
        index = to + 2;
    }
}

/// Whether the bytes give a size in hexadecimal digits.
pub open spec fn announces(size: Seq<u8>, n: nat) -> bool {
    !size.contains(13u8) && number(trimmed(readable(size)), 16, usize::MAX as nat) == Ok::<
        nat,
        NumberError,
    >(n)
}

/// A chunk as it is sent: its size, a line end, its data and a line end.
pub open spec fn chunk(size: Seq<u8>, data: Seq<u8>) -> Seq<u8> {
    size + seq![13u8, 10u8] + data + seq![13u8, 10u8]
}

/// Chunks as they are sent, with the size of the last, which has no data.
pub open spec fn chunked(chunks: Seq<(Seq<u8>, Seq<u8>)>, last: Seq<u8>) -> Seq<u8>
    decreases chunks.len(),
{
    if chunks.len() == 0 {
        chunk(last, Seq::empty())
    } else {
        chunk(chunks[0].0, chunks[0].1) + chunked(chunks.drop_first(), last)
    }
}

/// The data of chunks, one behind the other.
pub open spec fn chunk_data(chunks: Seq<(Seq<u8>, Seq<u8>)>) -> Seq<u8>
    decreases chunks.len(),
{
    if chunks.len() == 0 {
        Seq::empty()
    } else {
        chunks[0].1 + chunk_data(chunks.drop_first())
    }
}

proof fn lemma_first_mark(bytes: Seq<u8>, mark: Seq<u8>, from: int, at: int)
    requires
        mark.len() > 0,
        0 <= from <= at,
        stands_at(bytes, mark, at),
        forall|k: int| from <= k < at ==> #[trigger] bytes[k] != mark[0],
    ensures
        first_mark(bytes, mark, from) == Some(at),
    decreases at - from,
{
    if from < at {
        if stands_at(bytes, mark, from) {
            assert(bytes.subrange(from, from + mark.len())[0] == bytes[from]);
            assert(false);
        }
        lemma_first_mark(bytes, mark, from + 1, at);
    }
}

proof fn lemma_size_is_found(before: Seq<u8>, size: Seq<u8>, after: Seq<u8>, n: nat)
    requires
        announces(size, n),
    ensures
        ({
            let body = before + (size + seq![13u8, 10u8] + after);
            let end = before.len() + size.len();
            &&& first_mark(body, seq![13u8, 10u8], before.len() as int) == Some(end as int)
            &&& number(text_between(body, before.len() as int, end as int), 16, usize::MAX as nat)
                == Ok::<nat, NumberError>(n)
            &&& end + 2 <= body.len()
        }),
{
    let mark = seq![13u8, 10u8];
    let body = before + (size + mark + after);
    let end = (before.len() + size.len()) as int;
    assert(body.subrange(end, end + 2) =~= mark);
    assert forall|k: int| before.len() <= k < end implies #[trigger] body[k] != mark[0] by {
        assert(body[k] == size[k - before.len()]);
    }
    lemma_first_mark(body, mark, before.len() as int, end);
    assert(body.subrange(before.len() as int, end) =~= size);
}

proof fn lemma_chunks(
    before: Seq<u8>,
    chunks: Seq<(Seq<u8>, Seq<u8>)>,
    last: Seq<u8>,
    data: Seq<u8>,
)
    requires
        forall|i: int|
            0 <= i < chunks.len() ==> (#[trigger] chunks[i]).1.len() > 0 && announces(
                chunks[i].0,
                chunks[i].1.len(),
            ),
        announces(last, 0),
        before.len() + chunked(chunks, last).len() <= usize::MAX,
    ensures
        chunks_from(before + chunked(chunks, last), before.len() as int, data)
            == ChunksView::Whole(data + chunk_data(chunks)),
    decreases chunks.len(),
{
    let body = before + chunked(chunks, last);
    let mark = seq![13u8, 10u8];
    if chunks.len() == 0 {
        assert(body =~= before + (last + mark + mark));
        lemma_size_is_found(before, last, mark, 0);
        assert(data + chunk_data(chunks) =~= data);
    } else {
        let (size, part) = chunks[0];
        let rest = chunked(chunks.drop_first(), last);
        let end = (before.len() + size.len()) as int;
        assert(body =~= before + (size + mark + (part + mark + rest)));
        lemma_size_is_found(before, size, part + mark + rest, part.len());
        let next = before + chunk(size, part);
        assert(next.len() == end + 2 + part.len() + 2);
        assert(body =~= next + rest);
        assert(body.subrange(end + 2, (end + 2 + part.len()) as int) =~= part);
        assert forall|i: int| 0 <= i < chunks.drop_first().len() implies (
        #[trigger] chunks.drop_first()[i]).1.len() > 0 && announces(
            chunks.drop_first()[i].0,
            chunks.drop_first()[i].1.len(),
        ) by {
            assert(chunks.drop_first()[i] == chunks[i + 1]);
        }
        lemma_chunks(next, chunks.drop_first(), last, data + part);
        assert(data + part + chunk_data(chunks.drop_first()) =~= data + chunk_data(chunks));
    }
}

/// A body that was sent in chunks comes out as it went in: the sizes go and the
/// data stays, in its order.
pub proof fn chunked_body_is_restored(chunks: Seq<(Seq<u8>, Seq<u8>)>, last: Seq<u8>)
    requires
        forall|i: int|
            0 <= i < chunks.len() ==> (#[trigger] chunks[i]).1.len() > 0 && announces(
                chunks[i].0,
                chunks[i].1.len(),
            ),
        announces(last, 0),
        chunked(chunks, last).len() <= usize::MAX,
    ensures
        unchunked(chunked(chunks, last)) == ChunksView::Whole(chunk_data(chunks)),
{
    lemma_chunks(Seq::empty(), chunks, last, Seq::empty());
    assert(Seq::<u8>::empty() + chunked(chunks, last) =~= chunked(chunks, last));
    assert(Seq::<u8>::empty() + chunk_data(chunks) =~= chunk_data(chunks));
}

/// The value of the last header with the given name.
pub open spec fn header_value(lines: Seq<Seq<char>>, name: Seq<char>) -> Option<Seq<char>>
    decreases lines.len(),
{
    if lines.len() == 0 {
        None
    } else {
        match cut_first(lines.last(), ':') {
            Some((key, value)) => if lowered(trimmed(key)) == name {
                Some(trimmed(value))
            } else {
                header_value(lines.drop_last(), name)
            },
            None => header_value(lines.drop_last(), name),
        }
    }
}

/// Whether the header lines say that the body comes in chunks.
pub open spec fn says_chunked(lines: Seq<Seq<char>>) -> bool {
    match header_value(lines, "transfer-encoding"@) {
        Some(value) => lowered(value) == lowered("chunked"@),
        None => false,
    }
}

/// What becomes of the bytes that the engine sent.
#[verifier::ext_equal]
pub enum ReplyView {
    Read(ResponseView),
    Failed(ApiErrorView),
    Overrun,
}

/// The reply with the given head and body.
pub open spec fn reply_of(head: Seq<Seq<char>>, body: Seq<u8>) -> ReplyView {
    if head.len() == 0 {
        ReplyView::Failed(ApiErrorView::MissingStatusLine)
    } else if words_of(head[0]).len() < 2 {
        ReplyView::Failed(ApiErrorView::MissingStatusCode)
    } else {
        match number(words_of(head[0])[1], 10, u16::MAX as nat) {
            Err(e) => ReplyView::Failed(ApiErrorView::InvalidStatus(e)),
            Ok(code) => if says_chunked(head.skip(1)) {
                match unchunked(body) {
                    ChunksView::Whole(data) => ReplyView::Read(
                        ResponseView { status: code as u16, body: data },
                    ),
                    ChunksView::Failed(e) => ReplyView::Failed(e),
                    ChunksView::Overrun => ReplyView::Overrun,
                }
            } else {
                ReplyView::Read(ResponseView { status: code as u16, body })
            },
        }
    }
}

/// The reply in the bytes that the engine sent: a head, an empty line and a
/// body.
pub open spec fn parsed_reply(raw: Seq<u8>) -> ReplyView {
    match first_mark(raw, seq![13u8, 10u8, 13u8, 10u8], 0) {
        None => ReplyView::Failed(ApiErrorView::InvalidResponse),
        Some(split) => reply_of(lines_of(readable(raw.take(split))), raw.skip(split + 4)),
    }
}

enum Reply {
    Read(DockerResponse),
    Failed(DockerApiError),
    Overrun,
}

impl Reply {
    spec fn model(self) -> ReplyView {
        match self {
            Reply::Read(response) => ReplyView::Read(response@),
            Reply::Failed(e) => ReplyView::Failed(e@),
            Reply::Overrun => ReplyView::Overrun,
        }
    }
}

fn is_chunked(head: &Vec<String>) -> (r: bool)
    requires
        head@.len() > 0,
    ensures
        r == says_chunked(texts(head@).skip(1)),
{
    let ghost all = texts(head@).skip(1);
    let mut i: usize = head.len();
    assert(all.take(i - 1) =~= all);
    while i > 1
        invariant
            1 <= i <= head@.len(),
            all == texts(head@).skip(1),
            header_value(all, "transfer-encoding"@) == header_value(
                all.take(i - 1),
                "transfer-encoding"@,
            ),
        decreases i,
    {
        assert(all.take(i - 1).drop_last() =~= all.take(i - 2));
        assert(all.take(i - 1).last() == head@[i - 1]@);
        if let Some((key, value)) = split_once(head[i - 1].as_str(), ':') {
            let name = lower_text(trim(key));
            if same_text(name.as_str(), "transfer-encoding") {
                return same_ignoring_case(trim(value), "chunked");
            }
        }
        i = i - 1;
    }
    false
}

fn read_reply(raw: &[u8]) -> (r: Reply)
    ensures
        r.model() == parsed_reply(raw@),
{
    let mark: Vec<u8> = vec![13u8, 10u8, 13u8, 10u8];
    assert(mark@ =~= seq![13u8, 10u8, 13u8, 10u8]);
    let n: usize = raw.len();
    let split: usize = match find_mark(raw, mark.as_slice(), 0) {
        Some(split) => split,
        None => return Reply::Failed(DockerApiError::InvalidResponse),
    };
    assert(raw@.subrange(0, split as int) =~= raw@.take(split as int));
    assert(raw@.subrange(split + 4, n as int) =~= raw@.skip(split + 4));
    let text = readable_text(vstd::slice::slice_subrange(raw, 0, split));
    let body = vstd::slice::slice_subrange(raw, split + 4, n);
    let head = lines(text.as_str());
    if head.len() == 0 {
        return Reply::Failed(DockerApiError::MissingStatusLine);
    }
    assert(texts(head@)[0] == head@[0]@);
    let status_words = words(head[0].as_str());
    if status_words.len() < 2 {
        return Reply::Failed(DockerApiError::MissingStatusCode);
    }
    assert(texts(status_words@)[1] == status_words@[1]@);
    let status: u16 = match parse_u16_text(status_words[1].as_str()) {
        Ok(status) => status,
        Err(e) => return Reply::Failed(DockerApiError::InvalidStatus(e)),
    };
    if is_chunked(&head) {
        match read_chunks(body) {
            Chunks::Whole(data) => Reply::Read(DockerResponse { status, body: data }),
            Chunks::Failed(e) => Reply::Failed(e),
            Chunks::Overrun => Reply::Overrun,
        }
    } else {
        let mut data: Vec<u8> = Vec::new();
        data.extend_from_slice(body);
        assert(data@ =~= body@);
        Reply::Read(DockerResponse { status, body: data })
    }
}

/// Decodes a body that was sent in chunks.
pub fn decode_chunked(body: &[u8]) -> (r: Result<Vec<u8>, DockerApiError>)
    requires
        unchunked(body@) != ChunksView::Overrun,
    ensures
        match r {
            Ok(data) => unchunked(body@) == ChunksView::Whole(data@),
            Err(e) => unchunked(body@) == ChunksView::Failed(e@),
        },
{
    match read_chunks(body) {
        Chunks::Whole(data) => Ok(data),
        Chunks::Failed(e) => Err(e),
        Chunks::Overrun => Err(DockerApiError::TruncatedChunks),
    }
}

/// Whether the engine did what it was asked, or had nothing to do.
pub open spec fn is_success(status: u16) -> bool {
    200 <= status < 300 || status == 304
}

/// What the engine says went wrong.
pub open spec fn failure_text(body: Seq<u8>) -> Seq<char> {
    match json_decoding(body) {
        Some(value) => match text_entry(value, "message"@) {
            Some(text) => text,
            None => trimmed(readable(body)),
        },
        None => trimmed(readable(body)),
    }
}

/// What went wrong, if anything did.
pub open spec fn failure_of(response: ResponseView) -> Option<ApiErrorView> {
    if is_success(response.status) {
        None
    } else {
        Some(
            ApiErrorView::Status {
                status: response.status,
                message: failure_text(response.body),
            },
        )
    }
}

impl DockerResponse {
    /// Whether the chunks of the reply, if it has any, lie within it.
    pub fn is_framed(raw: &[u8]) -> (r: bool)
        ensures
            r == (parsed_reply(raw@) != ReplyView::Overrun),
    {
        match read_reply(raw) {
            Reply::Overrun => false,
            Reply::Read(_) => true,
            Reply::Failed(_) => true,
        }
    }

    /// Reads a reply.
    pub fn parse(raw: &[u8]) -> (r: Result<Self, DockerApiError>)
        requires
            parsed_reply(raw@) != ReplyView::Overrun,
        ensures
            match r {
                Ok(response) => parsed_reply(raw@) == ReplyView::Read(response@),
                Err(e) => parsed_reply(raw@) == ReplyView::Failed(e@),
            },
    {
        match read_reply(raw) {
            Reply::Read(response) => Ok(response),
            Reply::Failed(e) => Err(e),
            Reply::Overrun => Err(DockerApiError::TruncatedChunks),
        }
    }

    /// Fails where the engine did not do what it was asked.
    pub fn ensure_success(&self) -> (r: Result<(), DockerApiError>)
        ensures
            match r {
                Ok(()) => failure_of(self@) is None,
                Err(e) => failure_of(self@) == Some(e@),
            },
    {
        if (200 <= self.status && self.status < 300) || self.status == 304 {
            return Ok(());
        }
        let found: Option<String> = match json_parse(self.body.as_slice()) {
            Some(value) => match json_text_entry(&value, "message") {
                Some(text) => Some(text.to_owned()),
                None => None,
            },
            None => None,
        };
        let message = match found {
            Some(text) => text,
            None => {
                let text = readable_text(self.body.as_slice());
                trim(text.as_str()).to_owned()
            },
        };
        Err(DockerApiError::Status { status: self.status, message })
    }

    /// Whether the engine has the image that it was asked about.
    pub fn image_found(&self) -> (r: Result<bool, DockerApiError>)
        ensures
            match r {
                Ok(found) => (self.status == 404 && !found) || (failure_of(self@) is None && found),
                Err(e) => self.status != 404 && failure_of(self@) == Some(e@),
            },
    {
        if self.status == 200 {
            return Ok(true);
        }
        if self.status == 404 {
            return Ok(false);
        }
        match self.ensure_success() {
            Ok(()) => Ok(true),
            Err(e) => Err(e),
        }
    }
}

/// An upper-case hexadecimal digit.
pub open spec fn upper_hex(d: u8) -> char {
    if d < 10 {
        (48 + d) as char
    } else {
        (55 + d) as char
    }
}

/// Whether the byte stands for itself in a path or query.
pub open spec fn is_plain(byte: u8, encode_slash: bool) -> bool {
    (48 <= byte <= 57) || (65 <= byte <= 90) || (97 <= byte <= 122) || byte == 45 || byte == 95
        || byte == 46 || byte == 126 || (!encode_slash && byte == 47)
}

/// The text that stands for a byte in a path or query.
pub open spec fn byte_code(byte: u8, encode_slash: bool) -> Seq<char> {
    if is_plain(byte, encode_slash) {
        seq![byte as char]
    } else {
        seq!['%', upper_hex((byte / 16) as u8), upper_hex((byte % 16) as u8)]
    }
}

/// The text that stands for bytes in a path or query.
pub open spec fn percent_encoded(bytes: Seq<u8>, encode_slash: bool) -> Seq<char>
    decreases bytes.len(),
{
    if bytes.len() == 0 {
        Seq::empty()
    } else {
        percent_encoded(bytes.drop_last(), encode_slash) + byte_code(bytes.last(), encode_slash)
    }
}

fn hex_digit(d: u8) -> (r: char)
    requires
        d < 16,
    ensures
        r == upper_hex(d),
{
    if d < 10 {
        (48 + d) as char
    } else {
        (55 + d) as char
    }
}

/// Encodes text for a path or query.
pub fn percent_encode(value: &str, encode_slash: bool) -> (r: String)
    ensures
        r@ == percent_encoded(encode_utf8(value@), encode_slash),
{
    let bytes = value.as_bytes();
    let ghost all = bytes@;
    let mut out = String::new();
    let mut i: usize = 0;
    assert(all.take(0).len() == 0);
    while i < bytes.len()
        invariant
            i <= bytes@.len(),
            all == bytes@,
            out@ == percent_encoded(all.take(i as int), encode_slash),
        decreases bytes@.len() - i,
    {
        let b: u8 = bytes[i];
        let ghost before = out@;
        assert(all.take(i + 1).drop_last() =~= all.take(i as int));
        let plain = (48 <= b && b <= 57) || (65 <= b && b <= 90) || (97 <= b && b <= 122) || b == 45
            || b == 95 || b == 46 || b == 126 || (!encode_slash && b == 47);
        if plain {
            out.push(b as char);
        } else {
            out.push('%');
            out.push(hex_digit(b / 16));
            out.push(hex_digit(b % 16));
        }
        assert(out@ =~= before + byte_code(b, encode_slash));
        i = i + 1;
    }
    assert(all.take(i as int) =~= all);
    out
}

/// Encodes text for one part of a path.
pub fn encode_path(value: &str) -> (r: String)
    ensures
        r@ == percent_encoded(encode_utf8(value@), true),
{
    percent_encode(value, true)
}

/// Encodes text for a query.
pub fn encode_query(value: &str) -> (r: String)
    ensures
        r@ == percent_encoded(encode_utf8(value@), false),
{
    percent_encode(value, false)
}

/// Whether the character can stand in encoded text.
pub open spec fn is_code_char(c: char, encode_slash: bool) -> bool {
    c == '%' || (c as u32 <= 255 && is_plain(c as u8, encode_slash))
}

/// Encoded text holds nothing that has a meaning of its own in a path or
/// query: letters, digits, `-`, `_`, `.`, `~` and `%` alone, and slashes where
/// they are let through.
pub proof fn encoded_text_is_plain(bytes: Seq<u8>, encode_slash: bool)
    ensures
        forall|i: int|
            0 <= i < percent_encoded(bytes, encode_slash).len() ==> is_code_char(
                #[trigger] percent_encoded(bytes, encode_slash)[i],
                encode_slash,
            ),
    decreases bytes.len(),
{
    if bytes.len() > 0 {
        let head = percent_encoded(bytes.drop_last(), encode_slash);
        let tail = byte_code(bytes.last(), encode_slash);
        encoded_text_is_plain(bytes.drop_last(), encode_slash);
        let all = percent_encoded(bytes, encode_slash);
        assert forall|i: int| 0 <= i < all.len() implies is_code_char(
            #[trigger] all[i],
            encode_slash,
        ) by {
            if i < head.len() {
                assert(all[i] == head[i]);
            } else {
                assert(all[i] == tail[i - head.len()]);
            }
        }
    }
}

proof fn lemma_encoded_front(bytes: Seq<u8>, encode_slash: bool)
    requires
        bytes.len() > 0,
    ensures
        percent_encoded(bytes, encode_slash) == byte_code(bytes[0], encode_slash) + percent_encoded(
            bytes.drop_first(),
            encode_slash,
        ),
    decreases bytes.len(),
{
    let first = byte_code(bytes[0], encode_slash);
    if bytes.len() == 1 {
        assert(percent_encoded(bytes.drop_last(), encode_slash) =~= Seq::<char>::empty());
        assert(percent_encoded(bytes.drop_first(), encode_slash) =~= Seq::<char>::empty());
        assert(percent_encoded(bytes, encode_slash) =~= first + Seq::<char>::empty());
    } else {
        lemma_encoded_front(bytes.drop_last(), encode_slash);
        assert(bytes.drop_last().drop_first() =~= bytes.drop_first().drop_last());
        assert(percent_encoded(bytes, encode_slash) =~= first + percent_encoded(
            bytes.drop_first(),
            encode_slash,
        ));
    }
}

/// Encoding loses nothing: different bytes have different encodings.
pub proof fn encoding_loses_nothing(a: Seq<u8>, b: Seq<u8>, encode_slash: bool)
    requires
        percent_encoded(a, encode_slash) == percent_encoded(b, encode_slash),
    ensures
        a == b,
    decreases a.len(),
{
    if a.len() > 0 {
        lemma_encoded_front(a, encode_slash);
    }
    if b.len() > 0 {
        lemma_encoded_front(b, encode_slash);
    }
    if a.len() > 0 && b.len() > 0 {
        let x = byte_code(a[0], encode_slash);
        let y = byte_code(b[0], encode_slash);
        let p = percent_encoded(a.drop_first(), encode_slash);
        let q = percent_encoded(b.drop_first(), encode_slash);
        assert((x + p)[0] == x[0] && (y + q)[0] == y[0]);
        assert(x.len() == y.len());
        if x.len() == 3 {
            assert((x + p)[1] == x[1] && (y + q)[1] == y[1]);
            assert((x + p)[2] == x[2] && (y + q)[2] == y[2]);
            assert(a[0] / 16 == b[0] / 16 && a[0] % 16 == b[0] % 16);
        }
        assert(a[0] == b[0]);
        assert(p =~= (x + p).skip(x.len() as int));
        assert(q =~= (y + q).skip(y.len() as int));
        encoding_loses_nothing(a.drop_first(), b.drop_first(), encode_slash);
        assert(a =~= seq![a[0]] + a.drop_first());
        assert(b =~= seq![b[0]] + b.drop_first());
    } else {
        if a.len() > 0 {
            assert(percent_encoded(a, encode_slash).len() > 0);
        }
        if b.len() > 0 {
            assert(percent_encoded(b, encode_slash).len() > 0);
        }
        assert(a =~= b);
    }
}

/// The value of an upper-case hexadecimal digit.
pub open spec fn hex_value(c: char) -> int {
    if '0' <= c <= '9' {
        c as int - 48
    } else {
        c as int - 55
    }
}

/// The bytes that encoded text stands for: two hexadecimal digits behind a `%`
/// stand for a byte, and any other character for itself.
pub open spec fn percent_decoded(text: Seq<char>) -> Seq<u8>
    decreases text.len(),
{
    if text.len() == 0 {
        Seq::empty()
    } else if text[0] == '%' && text.len() >= 3 {
        seq![(16 * hex_value(text[1]) + hex_value(text[2])) as u8] + percent_decoded(text.skip(3))
    } else {
        seq![text[0] as u8] + percent_decoded(text.skip(1))
    }
}

/// Decoding encoded text gives the bytes back.
pub proof fn decoding_undoes_encoding(bytes: Seq<u8>, encode_slash: bool)
    ensures
        percent_decoded(percent_encoded(bytes, encode_slash)) == bytes,
    decreases bytes.len(),
{
    if bytes.len() > 0 {
        let code = byte_code(bytes[0], encode_slash);
        let rest = percent_encoded(bytes.drop_first(), encode_slash);
        lemma_encoded_front(bytes, encode_slash);
        decoding_undoes_encoding(bytes.drop_first(), encode_slash);
        let all = code + rest;
        assert(all.skip(code.len() as int) =~= rest);
        assert(all[0] == code[0]);
        if code.len() == 3 {
            assert(all[1] == code[1] && all[2] == code[2]);
        }
        assert(bytes =~= seq![bytes[0]] + bytes.drop_first());
    } else {
        assert(percent_decoded(percent_encoded(bytes, encode_slash)) =~= bytes);
    }
}

/// The name and the tag of an image. The tag stands behind the last colon,
/// unless a slash follows it.
pub open spec fn image_parts(image: Seq<char>) -> (Seq<char>, Option<Seq<char>>) {
    let slash = match last_at(image, '/') {
        Some(at) => at,
        None => 0,
    };
    match last_at(image, ':') {
        Some(colon) => if colon > slash {
            (image.take(colon), Some(image.skip(colon + 1)))
        } else {
            (image, None)
        },
        None => (image, None),
    }
}

/// Splits an image into name and tag.
pub fn split_image<'a>(image: &'a str) -> (r: (&'a str, Option<&'a str>))
    ensures
        image_parts(image@) == (
            r.0@,
            match r.1 {
                Some(tag) => Some(tag@),
                None => None,
            },
        ),
{
    let slash: usize = match rfind_char(image, '/') {
        Some(at) => at,
        None => 0,
    };
    if let Some(colon) = rfind_char(image, ':') {
        if colon > slash {
            let n: usize = image.unicode_len();
            assert(image@.take(colon as int) =~= image@.subrange(0, colon as int));
            assert(image@.skip(colon + 1) =~= image@.subrange(colon + 1, n as int));
            return (image.substring_char(0, colon), Some(image.substring_char(colon + 1, n)));
        }
    }
    (image, None)
}

/// Letters, digits and the marks that a path may hold are written as they are.
pub proof fn plain_bytes_are_written_as_they_are(bytes: Seq<u8>, encode_slash: bool)
    requires
        forall|i: int|
            0 <= i < bytes.len() ==> {
                let c = #[trigger] bytes[i] as char;
                ||| '0' <= c <= '9'
                ||| 'A' <= c <= 'Z'
                ||| 'a' <= c <= 'z'
                ||| c == '-'
                ||| c == '_'
                ||| c == '.'
                ||| c == '~'
                ||| c == '/' && !encode_slash
            },
    ensures
        percent_encoded(bytes, encode_slash) == bytes.map_values(|b: u8| b as char),
    decreases bytes.len(),
{
    if bytes.len() > 0 {
        let head = bytes.drop_last();
        assert forall|i: int| 0 <= i < head.len() implies {
            let c = #[trigger] head[i] as char;
            ||| '0' <= c <= '9'
            ||| 'A' <= c <= 'Z'
            ||| 'a' <= c <= 'z'
            ||| c == '-'
            ||| c == '_'
            ||| c == '.'
            ||| c == '~'
            ||| c == '/' && !encode_slash
        } by {
            assert(head[i] == bytes[i]);
        }
        plain_bytes_are_written_as_they_are(head, encode_slash);
        let _ = bytes[bytes.len() - 1] as char;
    }
    assert(percent_encoded(bytes, encode_slash) =~= bytes.map_values(|b: u8| b as char));
}

/// Nothing that is encoded ends the part of a path or a query that it stands in.
pub proof fn encoded_text_stays_in_its_place(bytes: Seq<u8>, encode_slash: bool)
    ensures
        ({
            let text = percent_encoded(bytes, encode_slash);
            &&& !text.contains('?')
            &&& !text.contains('&')
            &&& !text.contains('=')
            &&& !text.contains('#')
            &&& !text.contains('+')
            &&& !text.contains(' ')
            &&& !text.contains('\r')
            &&& !text.contains('\n')
            &&& encode_slash ==> !text.contains('/')
        }),
    decreases bytes.len(),
{
    if bytes.len() > 0 {
        encoded_text_stays_in_its_place(bytes.drop_last(), encode_slash);
        let head = percent_encoded(bytes.drop_last(), encode_slash);
        let tail = byte_code(bytes.last(), encode_slash);
        let text = percent_encoded(bytes, encode_slash);
        assert forall|c: char| head.contains(c) || tail.contains(c) || !text.contains(c) by {
            if text.contains(c) {
                let i = text.index_of(c);
                if i < head.len() {
                    assert(head[i] == c);
                } else {
                    assert(tail[i - head.len()] == c);
                }
            }
        }
        assert forall|c: char|
            c == '?' || c == '&' || c == '=' || c == '#' || c == '+' || c == ' ' || c == '\r' || c
                == '\n' || (encode_slash && c == '/') implies !tail.contains(c) by {
            if tail.contains(c) {
                let i = tail.index_of(c);
                assert(tail[i] == c);
            }
        }
    }
}

/// The tag of an image stands behind its last colon, where no slash follows it;
/// a colon before a slash belongs to the place that the image comes from.
pub proof fn image_names_are_taken_apart(name: Seq<char>, tag: Seq<char>, place: Seq<char>)
    requires
        name.len() > 0,
        !tag.contains(':'),
        !tag.contains('/'),
    ensures
        image_parts(name + seq![':'] + tag) == (name, Some(tag)),
        pull_path(name + seq![':'] + tag) == "/images/create?fromImage="@ + percent_encoded(
            encode_utf8(name),
            false,
        ) + "&tag="@ + percent_encoded(encode_utf8(tag), false),
        image_parts(place + seq!['/'] + tag) == (
            place + seq!['/'] + tag,
            None::<Seq<char>>,
        ),
        pull_path(place + seq!['/'] + tag) == "/images/create?fromImage="@ + percent_encoded(
            encode_utf8(place + seq!['/'] + tag),
            false,
        ),
        image_path(name) == "/images/"@ + percent_encoded(encode_utf8(name), true) + "/json"@,
{
    let tagged = name + seq![':'] + tag;
    let placed = place + seq!['/'] + tag;
    lemma_last_of(name, ':', tag);
    lemma_last_of(place, '/', tag);
    assert(tagged.take(name.len() as int) =~= name);
    assert(tagged.skip(name.len() as int + 1) =~= tag);
    if let Some(at) = last_at(tagged, '/') {
        last_place_is_the_last(tagged, '/', 0);
        if at > name.len() {
            assert(tagged[at] == tag[at - name.len() - 1]);
            assert(tag.contains('/'));
        }
        assert(tagged[name.len() as int] == ':');
    }
    if let Some(at) = last_at(placed, ':') {
        last_place_is_the_last(placed, ':', 0);
        if at > place.len() {
            assert(placed[at] == tag[at - place.len() - 1]);
            assert(tag.contains(':'));
        }
        assert(placed[place.len() as int] == '/');
    }
}

proof fn lemma_last_of(head: Seq<char>, c: char, tail: Seq<char>)
    requires
        !tail.contains(c),
    ensures
        last_at(head + seq![c] + tail, c) == Some(head.len() as int),
{
    let all = head + seq![c] + tail;
    let n = head.len() as int;
    last_place_is_the_last(all, c, n);
    assert(all[n] == c);
    if let Some(at) = last_at(all, c) {
        if at > n {
            assert(all[at] == tail[at - n - 1]);
            assert(tail.contains(c));
        }
    }
}

/// A request asks for its path by its method, tells how long its body is, and
/// ends in that body.
pub proof fn request_says_what_is_asked(request: RequestView)
    ensures
        request.wire() == encode_utf8(request.head()) + request.body,
        request.head() == request.method + seq![' '] + request.path + " HTTP/1.1"@ + seq!['\r', '\n']
            + "Host: docker"@ + seq!['\r', '\n'] + "User-Agent: remiaft/"@ + version() + seq![
            '\r',
            '\n',
        ] + "Content-Type: application/json"@ + seq!['\r', '\n'] + "Content-Length: "@ + decimal(
            request.body.len(),
        ) + seq!['\r', '\n'] + "Connection: close"@ + seq!['\r', '\n', '\r', '\n'],
{
    reveal_strlit(" ");
    reveal_strlit(" HTTP/1.1");
    reveal_strlit("Host: docker");
    reveal_strlit("User-Agent: remiaft/");
    reveal_strlit("Content-Type: application/json");
    reveal_strlit("Content-Length: ");
    reveal_strlit("Connection: close");
    reveal_strlit(" HTTP/1.1\r\nHost: docker\r\nUser-Agent: remiaft/");
    reveal_strlit("\r\nContent-Type: application/json\r\nContent-Length: ");
    reveal_strlit("\r\nConnection: close\r\n\r\n");
    let end = seq!['\r', '\n'];
    assert(" "@ =~= seq![' ']);
    let first = " HTTP/1.1"@ + end + "Host: docker"@ + end + "User-Agent: remiaft/"@;
    let second = end + "Content-Type: application/json"@ + end + "Content-Length: "@;
    let third = end + "Connection: close"@ + seq!['\r', '\n', '\r', '\n'];
    assert(" HTTP/1.1\r\nHost: docker\r\nUser-Agent: remiaft/"@ =~= first);
    assert("\r\nContent-Type: application/json\r\nContent-Length: "@ =~= second);
    assert("\r\nConnection: close\r\n\r\n"@ =~= third);
    let line = request.method + seq![' '] + request.path;
    let length = decimal(request.body.len());
    assert(line + first + version() + second + length + third =~= line + " HTTP/1.1"@ + end
        + "Host: docker"@ + end + "User-Agent: remiaft/"@ + version() + end
        + "Content-Type: application/json"@ + end + "Content-Length: "@ + length + end
        + "Connection: close"@ + seq!['\r', '\n', '\r', '\n']);
}

/// The last header of a name counts, whatever the case of its letters.
pub proof fn last_header_counts(
    lines: Seq<Seq<char>>,
    key: Seq<char>,
    value: Seq<char>,
    name: Seq<char>,
)
    requires
        !key.contains(':'),
    ensures
        lowered(trimmed(key)) == name ==> header_value(lines.push(key + seq![':'] + value), name)
            == Some(trimmed(value)),
        lowered(trimmed(key)) != name ==> header_value(lines.push(key + seq![':'] + value), name)
            == header_value(lines, name),
        header_value(Seq::empty(), name) is None,
{
    let line = key + seq![':'] + value;
    text_is_cut_at_the_first(key, ':', value);
    assert(lines.push(line).drop_last() =~= lines);
}

/// A reply is read as the status in its first line and as what follows its head.
pub proof fn reply_is_read(head: Seq<u8>, body: Seq<u8>, code: u16, first: Seq<char>)
    requires
        forall|i: int|
            0 <= i < head.len() ==> !stands_at(
                head + seq![13u8, 10u8, 13u8, 10u8] + body,
                seq![13u8, 10u8, 13u8, 10u8],
                i,
            ),
        lines_of(readable(head)).len() > 0,
        words_of(lines_of(readable(head))[0]).len() >= 2,
        words_of(lines_of(readable(head))[0])[1] == decimal(code as nat),
        !says_chunked(lines_of(readable(head)).skip(1)),
    ensures
        parsed_reply(head + seq![13u8, 10u8, 13u8, 10u8] + body) == ReplyView::Read(
            ResponseView { status: code, body },
        ),
{
    let mark = seq![13u8, 10u8, 13u8, 10u8];
    let raw = head + mark + body;
    let at = head.len() as int;
    assert(raw.subrange(at, at + 4) =~= mark);
    lemma_first_standing(raw, mark, 0, at);
    assert(raw.take(at) =~= head);
    assert(raw.skip(at + 4) =~= body);
    decimal_reads_back(code as nat, u16::MAX as nat);
}

proof fn lemma_first_standing(bytes: Seq<u8>, mark: Seq<u8>, from: int, at: int)
    requires
        0 <= from <= at,
        stands_at(bytes, mark, at),
        forall|i: int| from <= i < at ==> !stands_at(bytes, mark, i),
    ensures
        first_mark(bytes, mark, from) == Some(at),
    decreases at - from,
{
    if from < at {
        assert(!stands_at(bytes, mark, from));
        lemma_first_standing(bytes, mark, from + 1, at);
    }
}

/// A reply fails exactly where its status is neither a success nor tells that
/// nothing had to be changed, and its status is then what is reported.
pub proof fn other_statuses_are_failures(response: ResponseView)
    ensures
        failure_of(response) is None <==> 200 <= response.status <= 299 || response.status == 304,
        failure_of(response) matches Some(e) ==> e == (ApiErrorView::Status {
            status: response.status,
            message: failure_text(response.body),
        }),
        match json_decoding(response.body) {
            Some(value) => match text_entry(value, "message"@) {
                Some(text) => failure_text(response.body) == text,
                None => failure_text(response.body) == trimmed(readable(response.body)),
            },
            None => failure_text(response.body) == trimmed(readable(response.body)),
        },
{
}

/// Each request is noted with its time, its process, its method, its path and how
/// it ended.
pub proof fn requests_are_noted(
    timestamp: u64,
    pid: u32,
    method: Seq<char>,
    path: Seq<char>,
    status: Option<u16>,
    error: Option<Seq<char>>,
)
    ensures
        audit_entry(timestamp, pid, method, path, status, error) matches JsonView::Object(entry) && {
            &&& entry["timestamp_unix"@] == JsonView::Number(decimal(timestamp as nat))
            &&& entry["pid"@] == JsonView::Number(decimal(pid as nat))
            &&& entry["method"@] == JsonView::Text(method)
            &&& entry["path"@] == JsonView::Text(path)
            &&& entry["status"@] == (match status {
                Some(code) => JsonView::Number(decimal(code as nat)),
                None => JsonView::Null,
            })
            &&& entry["error"@] == (match error {
                Some(text) => JsonView::Text(text),
                None => JsonView::Null,
            })
        },
{
    reveal_strlit("timestamp_unix");
    reveal_strlit("pid");
    reveal_strlit("method");
    reveal_strlit("path");
    reveal_strlit("status");
    reveal_strlit("error");
    let method_key = "method"@;
    let status_key = "status"@;
    assert("timestamp_unix"@.len() == 14 && "pid"@.len() == 3 && method_key.len() == 6
        && "path"@.len() == 4 && status_key.len() == 6 && "error"@.len() == 5);
    assert(method_key[0] == 'm' && status_key[0] == 's');
}

/// What the engine refused is told with its status and its message.
pub proof fn refused_requests_are_told(status: u16, message: Seq<char>)
    ensures
        (ApiErrorView::Status { status, message }).words() == "Docker API returned "@ + decimal(
            status as nat,
        ) + ": "@ + message,
        ApiErrorView::InvalidResponse.words() == "invalid Docker HTTP response"@,
        ApiErrorView::MissingStatusLine.words() == "missing Docker HTTP status line"@,
        ApiErrorView::MissingStatusCode.words() == "missing Docker HTTP status code"@,
        ApiErrorView::InvalidChunks.words() == "invalid chunked Docker response"@,
        ApiErrorView::TruncatedChunks.words() == "truncated chunked Docker response"@,
{
}

} // verus!
