//! Requests and responses of the control plane: what a request says once
//! its lines are read, and what is written back.

use vstd::prelude::*;
use vstd::string::StrSliceExecFns;
use crate::strmap::{map_of_texts, pairs_view, StrMap};
use crate::text::{chars_of, concat, decimal, find_char, has_prefix_ignoring_case, join, joined,
    lemma_position_of, parse_decimal, parse_unsigned, position_of, split_whitespace,
    starts_with_ignoring_case, string_of_range, texts_view, trim, trimmed, u64_to_string, words_of};

verus! {

/// What stands behind each status code that the control plane knows.
pub open spec fn status_text(status: u16) -> Seq<char> {
    if status == 200 {
        "OK"@
    } else if status == 201 {
        "Created"@
    } else if status == 202 {
        "Accepted"@
    } else if status == 204 {
        "No Content"@
    } else if status == 400 {
        "Bad Request"@
    } else if status == 401 {
        "Unauthorized"@
    } else if status == 403 {
        "Forbidden"@
    } else if status == 404 {
        "Not Found"@
    } else if status == 405 {
        "Method Not Allowed"@
    } else if status == 409 {
        "Conflict"@
    } else if status == 418 {
        "I'm a teapot"@
    } else if status == 500 {
        "Internal Server Error"@
    } else if status == 501 {
        "Not Implemented"@
    } else if status == 505 {
        "HTTP Version Not Supported"@
    } else {
        "Unknown Status"@
    }
}

/// The text that stands behind a status code.
pub fn get_status_text(status: u16) -> (r: String)
    ensures
        r@ == status_text(status),
{
    if status == 200 {
        "OK".to_string()
    } else if status == 201 {
        "Created".to_string()
    } else if status == 202 {
        "Accepted".to_string()
    } else if status == 204 {
        "No Content".to_string()
    } else if status == 400 {
        "Bad Request".to_string()
    } else if status == 401 {
        "Unauthorized".to_string()
    } else if status == 403 {
        "Forbidden".to_string()
    } else if status == 404 {
        "Not Found".to_string()
    } else if status == 405 {
        "Method Not Allowed".to_string()
    } else if status == 409 {
        "Conflict".to_string()
    } else if status == 418 {
        "I'm a teapot".to_string()
    } else if status == 500 {
        "Internal Server Error".to_string()
    } else if status == 501 {
        "Not Implemented".to_string()
    } else if status == 505 {
        "HTTP Version Not Supported".to_string()
    } else {
        "Unknown Status".to_string()
    }
}

/// A request, as it is handed to a handler.
#[derive(Debug)]
pub struct Request {
    pub method: String,
    pub path: String,
    pub version: String,
    pub headers: Vec<String>,
    pub body: String,
    pub query_params: StrMap,
    pub path_params: StrMap,
}

impl Clone for Request {
    fn clone(&self) -> (r: Self)
        ensures
            r.method == self.method,
            r.path == self.path,
            r.version == self.version,
            r.headers@ == self.headers@,
            r.body == self.body,
            r.query_params@ == self.query_params@,
            r.path_params@ == self.path_params@,
    {
        Request {
            method: self.method.clone(),
            path: self.path.clone(),
            version: self.version.clone(),
            headers: self.headers.clone(),
            body: self.body.clone(),
            query_params: self.query_params.clone(),
            path_params: self.path_params.clone(),
        }
    }
}

/// A response, as a handler returns it.
#[derive(Debug)]
pub struct Response {
    pub status: u16,
    pub headers: Vec<String>,
    pub body: Vec<u8>,
}

/// The body of a response that reports an error.
#[derive(Debug)]
pub struct ErrorResponse {
    pub code: u16,
    pub status: String,
    pub message: String,
}

/// What answers requests.
pub trait Handler {
    fn handle(&self, request: &mut Request) -> Response;
}

/// The sixteen digits of lower-case hexadecimal notation.
pub open spec fn hex_digits() -> Seq<char> {
    seq!['0', '1', '2', '3', '4', '5', '6', '7', '8', '9', 'a', 'b', 'c', 'd', 'e', 'f']
}

/// Whether a character comes before the space.
pub open spec fn is_below_space(c: char) -> bool {
    (c as u32) < 32
}

/// How a character stands inside a JSON string: the quote and the
/// backslash behind a backslash; backspace, tab, line feed, form feed and
/// carriage return by their letter behind a backslash; any other character
/// below the space as `\u00` and its two hexadecimal digits; every other
/// character as itself.
pub open spec fn json_escaped_char(c: char) -> Seq<char> {
    if c == '"' {
        seq!['\\', '"']
    } else if c == '\\' {
        seq!['\\', '\\']
    } else if c == '\u{8}' {
        seq!['\\', 'b']
    } else if c == '\t' {
        seq!['\\', 't']
    } else if c == '\n' {
        seq!['\\', 'n']
    } else if c == '\u{c}' {
        seq!['\\', 'f']
    } else if c == '\r' {
        seq!['\\', 'r']
    } else if is_below_space(c) {
        seq!['\\', 'u', '0', '0', hex_digits()[(c as u32 / 16) as int], hex_digits()[(c as u32 % 16) as int]]
    } else {
        seq![c]
    }
}

/// The characters of a text as they stand inside a JSON string.
pub open spec fn json_escaped(s: Seq<char>) -> Seq<char>
    decreases s.len(),
{
    if s.len() == 0 {
        Seq::empty()
    } else {
        json_escaped(s.drop_last()) + json_escaped_char(s.last())
    }
}

/// The JSON notation of a text: its characters as they stand inside a
/// JSON string, between two quotes.
pub open spec fn json_quoted(s: Seq<char>) -> Seq<char> {
    seq!['"'] + json_escaped(s) + seq!['"']
}

/// Whether a character stands for itself inside a JSON string.
pub open spec fn is_plain_in_json(c: char) -> bool {
    !is_below_space(c) && c != '"' && c != '\\'
}

/// A text of characters that stand for themselves is written as it is.
pub proof fn lemma_json_escaped_plain(s: Seq<char>)
    requires
        forall|i: int| 0 <= i < s.len() ==> is_plain_in_json(#[trigger] s[i]),
    ensures
        json_escaped(s) == s,
        json_quoted(s) == seq!['"'] + s + seq!['"'],
    decreases s.len(),
{
    if s.len() > 0 {
        lemma_json_escaped_plain(s.drop_last());
        assert(is_plain_in_json(s.last()));
        assert(json_escaped_char(s.last()) == seq![s.last()]);
        assert(s.drop_last() + seq![s.last()] =~= s);
    } else {
        assert(s =~= Seq::<char>::empty());
    }
}

/// The pairs of names and values that `form_urlencoded::parse` reads from
/// the bytes of a query string.
pub uninterp spec fn form_pairs(query: Seq<char>) -> Seq<(Seq<char>, Seq<char>)>;

/// Writes a text as JSON with `serde_json::to_string`: the result is the
/// JSON notation of the text, as `json_quoted` spells it out. The call
/// does not fail on a text.
#[verifier::external_body]
pub(crate) fn json_quote(s: &str) -> (r: String)
    ensures
        r@ == json_quoted(s@),
{
    match serde_json::to_string(s) {
        Ok(text) => text,
        Err(_) => String::new(),
    }
}

/// Reads a query string with `form_urlencoded::parse`: the result holds
/// the pairs that it yields, in their order.
#[verifier::external_body]
pub(crate) fn parse_query(query: &str) -> (r: Vec<(String, String)>)
    ensures
        pairs_view(r@) == form_pairs(query@),
{
    let mut out = Vec::new();
    for (name, value) in form_urlencoded::parse(query.as_bytes()) {
        out.push((name.into_owned(), value.into_owned()));
    }
    out
}

/// The current time as `chrono::Utc::now` reads it from the system clock,
/// written by `to_rfc2822`. Nothing is claimed of the text.
#[verifier::external_body]
pub(crate) fn http_date() -> String {
    chrono::Utc::now().to_rfc2822()
}

/// The header that marks a body as JSON.
pub open spec fn json_content_type() -> Seq<char> {
    "Content-Type: application/json"@
}

/// A response whose body is the given JSON.
pub fn json(status: u16, body: Vec<u8>) -> (r: Response)
    ensures
        r.status == status,
        r.body == body,
        r.headers@.len() == 1,
        r.headers@[0]@ == json_content_type(),
{
    let mut headers: Vec<String> = Vec::new();
    headers.push("Content-Type: application/json".to_string());
    Response { status, headers, body }
}

/// The JSON that reports an error.
pub open spec fn error_json(code: u16, status: Seq<char>, message: Seq<char>) -> Seq<char> {
    "{\"code\":"@ + decimal(code as nat) + ",\"status\":"@ + json_quoted(status) + ",\"message\":"@
        + json_quoted(message) + "}"@
}

/// Where the status and the message hold only characters that stand for
/// themselves, the JSON of an error holds them as they are, each between
/// two quotes.
pub proof fn lemma_error_json_plain(code: u16, status: Seq<char>, message: Seq<char>)
    requires
        forall|i: int| 0 <= i < status.len() ==> is_plain_in_json(#[trigger] status[i]),
        forall|i: int| 0 <= i < message.len() ==> is_plain_in_json(#[trigger] message[i]),
    ensures
        error_json(code, status, message) == "{\"code\":"@ + decimal(code as nat) + ",\"status\":\""@
            + status + "\",\"message\":\""@ + message + "\"}"@,
{
    lemma_json_escaped_plain(status);
    lemma_json_escaped_plain(message);
    reveal_strlit(",\"status\":");
    reveal_strlit(",\"status\":\"");
    reveal_strlit(",\"message\":");
    reveal_strlit("\",\"message\":\"");
    reveal_strlit("}");
    reveal_strlit("\"}");
    let q = seq!['"'];
    let head = "{\"code\":"@ + decimal(code as nat);
    assert(",\"status\":\""@ =~= ",\"status\":"@ + q);
    assert("\",\"message\":\""@ =~= q + ",\"message\":"@ + q);
    assert("\"}"@ =~= q + "}"@);
    assert(error_json(code, status, message) =~= head + ",\"status\":"@ + (q + status + q)
        + ",\"message\":"@ + (q + message + q) + "}"@);
    assert(head + ",\"status\":"@ + (q + status + q) + ",\"message\":"@ + (q + message + q) + "}"@
        =~= head + (",\"status\":"@ + q) + status + (q + ",\"message\":"@ + q) + message + (q + "}"@));
}

impl ErrorResponse {
    /// The error of the given status code with the given message.
    pub fn new(status: u16, message: String) -> (r: ErrorResponse)
        ensures
            r.code == status,
            r.status@ == status_text(status),
            r.message == message,
    {
        ErrorResponse { code: status, status: get_status_text(status), message }
    }

    /// The error as JSON.
    pub fn to_json(&self) -> (r: String)
        ensures
            r@ == error_json(self.code, self.status@, self.message@),
    {
        let code = u64_to_string(self.code as u64);
        let status = json_quote(self.status.as_str());
        let message = json_quote(self.message.as_str());
        let a = concat("{\"code\":", code.as_str());
        let b = concat(a.as_str(), ",\"status\":");
        let c = concat(b.as_str(), status.as_str());
        let d = concat(c.as_str(), ",\"message\":");
        let e = concat(d.as_str(), message.as_str());
        concat(e.as_str(), "}")
    }
}

/// The response that reports an error: its body is the JSON of the code,
/// the text that stands behind the code, and the message.
pub fn err(status: u16, msg: String) -> (r: Response)
    ensures
        r.status == status,
        r.headers@.len() == 1,
        r.headers@[0]@ == json_content_type(),
        r.body@ == vstd::utf8::encode_utf8(error_json(status, status_text(status), msg@)),
{
    let error = ErrorResponse::new(status, msg);
    let text = error.to_json();
    json(status, text.as_str().as_bytes_vec())
}

/// The first line of a request, taken apart.
#[derive(Debug)]
pub struct RequestLine {
    pub method: String,
    /// The target up to its first `?`.
    pub path: String,
    /// What the target's query says.
    pub query_params: StrMap,
}

/// The path of a request's target: the target up to its first `?`.
pub open spec fn target_path(target: Seq<char>) -> Seq<char> {
    target.take(position_of(target, '?'))
}

/// The query of a request's target: what follows its first `?`.
pub open spec fn target_query(target: Seq<char>) -> Option<Seq<char>> {
    if position_of(target, '?') < target.len() {
        Some(target.skip(position_of(target, '?') + 1))
    } else {
        None
    }
}

/// The parameters that a request's target names in its query.
pub open spec fn target_params(target: Seq<char>) -> Map<Seq<char>, Seq<char>> {
    match target_query(target) {
        Some(q) => map_of_texts(form_pairs(q)),
        None => Map::empty(),
    }
}

/// Takes a request's target apart into its path and the parameters of its
/// query; of two parameters of one name the later stays.
pub fn split_target(target: &str) -> (r: (String, StrMap))
    ensures
        r.0@ == target_path(target@),
        r.1@ == target_params(target@),
{
    let v = chars_of(target);
    match find_char(&v, '?') {
        Some(i) => {
            proof {
                lemma_position_of(v@, '?', i as int);
            }
            assert(i < v.len());
            let path = string_of_range(&v, 0, i);
            let query = string_of_range(&v, i + 1, v.len());
            assert(v@.subrange(i + 1, v@.len() as int) =~= v@.skip(i + 1));
            assert(v@.subrange(0, i as int) =~= v@.take(i as int));
            let pairs = parse_query(query.as_str());
            (path, StrMap::from_pairs(pairs))
        },
        None => {
            proof {
                lemma_position_of(v@, '?', v@.len() as int);
                assert(v@.take(v@.len() as int) =~= v@);
            }
            (target.to_owned(), StrMap::new())
        },
    }
}

/// Takes the first line of a request apart: its first word is the method,
/// its second the target. A line of fewer than two words is no request
/// line.
pub fn parse_request_line(line: &str) -> (r: Option<RequestLine>)
    ensures
        match r {
            Some(l) => words_of(line@).len() >= 2 && l.method@ == words_of(line@)[0] && l.path@
                == target_path(words_of(line@)[1]) && l.query_params@ == target_params(
                words_of(line@)[1],
            ),
            None => words_of(line@).len() < 2,
        },
{
    let words = split_whitespace(line);
    if words.len() < 2 {
        return None;
    }
    proof {
        assert(texts_view(words@)[0] == words@[0]@);
        assert(texts_view(words@)[1] == words@[1]@);
    }
    let method = words[0].clone();
    let (path, query_params) = split_target(words[1].as_str());
    Some(RequestLine { method, path, query_params })
}

/// Whether a line ends the headers of a request: it holds white space
/// only.
pub fn ends_headers(line: &str) -> (r: bool)
    ensures
        r == (trimmed(line@).len() == 0),
{
    let t = trim(line);
    chars_of(t.as_str()).len() == 0
}

/// A header as it is kept: its line without the white space around it.
pub fn header_of_line(line: &str) -> (r: String)
    ensures
        r@ == trimmed(line@),
{
    trim(line)
}

/// How a header that gives the length of the body begins.
pub open spec fn content_length_name() -> Seq<char> {
    "content-length:"@
}

/// The length that a header gives for the body: its last word, where the
/// header names the content length, in whatever case, and that word is a
/// number.
pub open spec fn header_length(header: Seq<char>) -> Option<nat> {
    if has_prefix_ignoring_case(header, content_length_name()) && words_of(header).len() > 0 {
        parse_unsigned(words_of(header).last(), usize::MAX as nat)
    } else {
        None
    }
}

/// The length of the body that the headers announce: what the first
/// header that gives one says, and zero where none does.
pub open spec fn content_length_of(headers: Seq<Seq<char>>) -> nat
    decreases headers.len(),
{
    if headers.len() == 0 {
        0
    } else {
        match header_length(headers[0]) {
            Some(n) => n,
            None => content_length_of(headers.drop_first()),
        }
    }
}

fn length_in_header(header: &str) -> (r: Option<usize>)
    ensures
        match r {
            Some(n) => header_length(header@) == Some(n as nat),
            None => header_length(header@) is None,
        },
{
    if !starts_with_ignoring_case(header, "content-length:") {
        return None;
    }
    let words = split_whitespace(header);
    if words.len() == 0 {
        return None;
    }
    let last = &words[words.len() - 1];
    proof {
        assert(texts_view(words@).last() == last@);
    }
    match parse_decimal(last.as_str(), usize::MAX as u64) {
        Some(n) => Some(n as usize),
        None => None,
    }
}

/// The length of the body that the headers announce.
pub fn content_length(headers: &Vec<String>) -> (r: usize)
    ensures
        r == content_length_of(texts_view(headers@)),
{
    let ghost texts = texts_view(headers@);
    let mut i: usize = 0;
    proof {
        assert(texts.skip(0) =~= texts);
    }
    while i < headers.len()
        invariant
            i <= headers@.len(),
            texts == texts_view(headers@),
            content_length_of(texts) == content_length_of(texts.skip(i as int)),
        decreases headers@.len() - i,
    {
        proof {
            assert(texts.skip(i as int)[0] == headers@[i as int]@);
            assert(texts.skip(i as int).drop_first() =~= texts.skip(i + 1));
        }
        if let Some(n) = length_in_header(headers[i].as_str()) {
            return n;
        }
        i += 1;
    }
    0
}

/// The version that every request is taken to speak.
pub open spec fn http_version() -> Seq<char> {
    "HTTP/1.1"@
}

impl Request {
    /// The request that a first line, the headers and a body make. The
    /// parameters of its path are left to the router.
    pub fn new(line: RequestLine, headers: Vec<String>, body: String) -> (r: Request)
        ensures
            r.method == line.method,
            r.path == line.path,
            r.version@ == http_version(),
            r.headers == headers,
            r.body == body,
            r.query_params@ == line.query_params@,
            r.path_params@ == Map::<Seq<char>, Seq<char>>::empty(),
    {
        Request {
            method: line.method,
            path: line.path,
            version: "HTTP/1.1".to_string(),
            headers,
            body,
            query_params: line.query_params,
            path_params: StrMap::new(),
        }
    }
}

/// The headers that every response carries, before those of the handler:
/// the server's name, the length of the body, the date, and the headers
/// that let any origin read the response.
pub open spec fn default_headers(body_len: nat, date: Seq<char>) -> Seq<Seq<char>> {
    seq![
        "Server: kurv"@,
        "Content-Length: "@ + decimal(body_len),
        "Date: "@ + date,
        "Access-Control-Allow-Origin: *"@,
        "Access-Control-Allow-Methods: GET, POST, OPTIONS"@,
        "Access-Control-Allow-Headers: Content-Type"@,
    ]
}

/// The header lines of a response, each ended by a line break but the last.
pub open spec fn headers_text(user_headers: Seq<Seq<char>>, body_len: nat, date: Seq<char>) -> Seq<char> {
    joined(default_headers(body_len, date) + user_headers, "\r\n"@)
}

/// The header lines of a response dated `date`.
pub fn get_headers_at(user_headers: &Vec<String>, body: &Vec<u8>, date: &str) -> (r: String)
    ensures
        r@ == headers_text(texts_view(user_headers@), body@.len(), date@),
{
    let mut headers: Vec<String> = Vec::new();
    headers.push("Server: kurv".to_string());
    let len = u64_to_string(body.len() as u64);
    headers.push(concat("Content-Length: ", len.as_str()));
    headers.push(concat("Date: ", date));
    headers.push("Access-Control-Allow-Origin: *".to_string());
    headers.push("Access-Control-Allow-Methods: GET, POST, OPTIONS".to_string());
    headers.push("Access-Control-Allow-Headers: Content-Type".to_string());
    let ghost fixed = headers@;
    let mut i: usize = 0;
    while i < user_headers.len()
        invariant
            i <= user_headers@.len(),
            headers@ == fixed + user_headers@.take(i as int),
        decreases user_headers@.len() - i,
    {
        headers.push(user_headers[i].clone());
        proof {
            assert(user_headers@.take(i + 1) =~= user_headers@.take(i as int).push(
                user_headers@[i as int],
            ));
        }
        i += 1;
    }
    proof {
        assert(user_headers@.take(user_headers@.len() as int) =~= user_headers@);
        assert(texts_view(headers@) =~= default_headers(body@.len(), date@)
            + texts_view(user_headers@));
    }
    join(&headers, "\r\n")
}

/// The header lines of a response dated now.
pub fn get_headers(user_headers: &Vec<String>, body: &Vec<u8>) -> (r: String)
    ensures
        exists|date: Seq<char>|
            r@ == #[trigger] headers_text(texts_view(user_headers@), body@.len(), date),
{
    let date = http_date();
    get_headers_at(user_headers, body, date.as_str())
}

/// What stands before the body of a response: the status line, the header
/// lines, and an empty line.
pub open spec fn response_head(
    status: u16,
    user_headers: Seq<Seq<char>>,
    body_len: nat,
    date: Seq<char>,
) -> Seq<char> {
    "HTTP/1.1 "@ + decimal(status as nat) + " "@ + status_text(status) + "\r\n"@ + headers_text(
        user_headers,
        body_len,
        date,
    ) + "\r\n\r\n"@
}

/// The bytes that are written back for a response dated `date`: the head,
/// then the body as it is.
pub fn render_response(response: &Response, date: &str) -> (r: Vec<u8>)
    ensures
        r@ == vstd::utf8::encode_utf8(
            response_head(
                response.status,
                texts_view(response.headers@),
                response.body@.len(),
                date@,
            ),
        ) + response.body@,
{
    let code = u64_to_string(response.status as u64);
    let text = get_status_text(response.status);
    let headers = get_headers_at(&response.headers, &response.body, date);
    let a = concat("HTTP/1.1 ", code.as_str());
    let b = concat(a.as_str(), " ");
    let c = concat(b.as_str(), text.as_str());
    let d = concat(c.as_str(), "\r\n");
    let e = concat(d.as_str(), headers.as_str());
    let head = concat(e.as_str(), "\r\n\r\n");
    let mut out = head.as_str().as_bytes_vec();
    let ghost head_bytes = out@;
    let mut i: usize = 0;
    while i < response.body.len()
        invariant
            i <= response.body@.len(),
            out@ == head_bytes + response.body@.take(i as int),
        decreases response.body@.len() - i,
    {
        out.push(response.body[i]);
        proof {
            assert(response.body@.take(i + 1) =~= response.body@.take(i as int).push(
                response.body@[i as int],
            ));
        }
        i += 1;
    }
    proof {
        assert(response.body@.take(response.body@.len() as int) =~= response.body@);
    }
    out
}

/// The bytes that are written back for a response dated now.
pub fn render_response_now(response: &Response) -> (r: Vec<u8>)
    ensures
        exists|date: Seq<char>|
            r@ == vstd::utf8::encode_utf8(
                #[trigger] response_head(
                    response.status,
                    texts_view(response.headers@),
                    response.body@.len(),
                    date,
                ),
            ) + response.body@,
{
    let date = http_date();
    render_response(response, date.as_str())
}

} // verus!
