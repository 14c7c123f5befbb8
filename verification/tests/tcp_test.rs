use kurv::strmap::StrMap;
use kurv::tcp::{
    content_length, ends_headers, err, get_headers, get_headers_at, get_status_text, header_of_line,
    json, parse_request_line, render_response, split_target, ErrorResponse, Request, Response,
};

#[test]
fn test_request_creation() {
    let request = Request {
        method: "GET".to_string(),
        path: "/eggs".to_string(),
        version: "HTTP/1.1".to_string(),
        headers: vec!["Content-Type: application/json".to_string()],
        body: "".to_string(),
        query_params: StrMap::new(),
        path_params: StrMap::new(),
    };

    assert_eq!(request.method, "GET");
    assert_eq!(request.path, "/eggs");
    assert_eq!(request.version, "HTTP/1.1");
}

#[test]
fn test_query_params() {
    let mut query_params = StrMap::new();
    query_params.insert("id".to_string(), "1".to_string());
    query_params.insert("status".to_string(), "running".to_string());

    let request = Request {
        method: "GET".to_string(),
        path: "/eggs".to_string(),
        version: "HTTP/1.1".to_string(),
        headers: vec![],
        body: "".to_string(),
        query_params: query_params.clone(),
        path_params: StrMap::new(),
    };

    assert_eq!(request.query_params.get("id"), Some(&"1".to_string()));
    assert_eq!(request.query_params.get("status"), Some(&"running".to_string()));
}

#[test]
fn test_path_params() {
    let mut path_params = StrMap::new();
    path_params.insert("egg_id".to_string(), "test-egg".to_string());

    let request = Request {
        method: "POST".to_string(),
        path: "/eggs/test-egg/stop".to_string(),
        version: "HTTP/1.1".to_string(),
        headers: vec![],
        body: "".to_string(),
        query_params: StrMap::new(),
        path_params: path_params.clone(),
    };

    assert_eq!(request.path_params.get("egg_id"), Some(&"test-egg".to_string()));
}

#[test]
fn test_json_response_helper() {
    let mut data = serde_json::Map::new();
    data.insert("name".to_string(), serde_json::Value::from("test"));
    data.insert("value".to_string(), serde_json::Value::from(42));

    let response = json(200, serde_json::to_vec(&serde_json::Value::Object(data)).unwrap());

    assert_eq!(response.status, 200);
    assert!(response.headers.contains(&"Content-Type: application/json".to_string()));

    // verify body is valid JSON
    let body_str = String::from_utf8(response.body).unwrap();
    let parsed: serde_json::Value = serde_json::from_str(&body_str).unwrap();
    assert_eq!(parsed["name"], "test");
    assert_eq!(parsed["value"], 42);
}

#[test]
fn test_response_creation() {
    let response = Response {
        status: 200,
        headers: vec!["Content-Type: text/plain".to_string()],
        body: b"Hello, World!".to_vec(),
    };

    assert_eq!(response.status, 200);
    assert_eq!(response.headers.len(), 1);
    assert_eq!(String::from_utf8(response.body).unwrap(), "Hello, World!");
}

#[test]
fn test_response_with_json_body() {
    let mut object = serde_json::Map::new();
    object.insert("status".to_string(), serde_json::Value::from("ok"));
    object.insert("count".to_string(), serde_json::Value::from(5));
    let json_body = serde_json::Value::Object(object);
    let body_bytes = serde_json::to_vec(&json_body).unwrap();

    let response = Response {
        status: 200,
        headers: vec!["Content-Type: application/json".to_string()],
        body: body_bytes,
    };

    assert_eq!(response.status, 200);

    // verify we can deserialize the body
    let parsed: serde_json::Value = serde_json::from_slice(&response.body).unwrap();
    assert_eq!(parsed["status"], "ok");
    assert_eq!(parsed["count"], 5);
}

#[test]
fn test_multiple_headers() {
    let response = Response {
        status: 200,
        headers: vec![
            "Content-Type: application/json".to_string(),
            "X-Custom-Header: value".to_string(),
            "Cache-Control: no-cache".to_string(),
        ],
        body: vec![],
    };

    assert_eq!(response.headers.len(), 3);
    assert!(response.headers.contains(&"Content-Type: application/json".to_string()));
    assert!(response.headers.contains(&"X-Custom-Header: value".to_string()));
    assert!(response.headers.contains(&"Cache-Control: no-cache".to_string()));
}

#[test]
fn test_request_with_body() {
    let body = "{\"name\": \"new-egg\", \"command\": \"echo\"}";

    let request = Request {
        method: "POST".to_string(),
        path: "/eggs".to_string(),
        version: "HTTP/1.1".to_string(),
        headers: vec!["Content-Type: application/json".to_string()],
        body: body.to_string(),
        query_params: StrMap::new(),
        path_params: StrMap::new(),
    };

    assert_eq!(request.method, "POST");
    assert!(!request.body.is_empty());

    // verify body is valid JSON
    let parsed: serde_json::Value = serde_json::from_str(&request.body).unwrap();
    assert_eq!(parsed["name"], "new-egg");
    assert_eq!(parsed["command"], "echo");
}

#[test]
fn status_texts() {
    let expected = [
        (200, "OK"),
        (201, "Created"),
        (202, "Accepted"),
        (204, "No Content"),
        (400, "Bad Request"),
        (401, "Unauthorized"),
        (403, "Forbidden"),
        (404, "Not Found"),
        (405, "Method Not Allowed"),
        (409, "Conflict"),
        (418, "I'm a teapot"),
        (500, "Internal Server Error"),
        (501, "Not Implemented"),
        (505, "HTTP Version Not Supported"),
        (299, "Unknown Status"),
        (0, "Unknown Status"),
    ];
    for (code, text) in expected {
        assert_eq!(get_status_text(code), text);
    }
}

#[test]
fn err_writes_code_status_and_message_as_json() {
    let response = err(404, "egg not found: x".to_string());
    assert_eq!(response.status, 404);
    assert_eq!(response.headers, vec!["Content-Type: application/json".to_string()]);
    assert_eq!(
        String::from_utf8(response.body).unwrap(),
        "{\"code\":404,\"status\":\"Not Found\",\"message\":\"egg not found: x\"}"
    );
}

#[test]
fn err_escapes_the_message() {
    let response = err(400, "a \"quoted\"\nline \\ é".to_string());
    let text = String::from_utf8(response.body.clone()).unwrap();
    assert_eq!(
        text,
        "{\"code\":400,\"status\":\"Bad Request\",\"message\":\"a \\\"quoted\\\"\\nline \\\\ é\"}"
    );
    let parsed: serde_json::Value = serde_json::from_slice(&response.body).unwrap();
    assert_eq!(parsed["code"], 400);
    assert_eq!(parsed["status"], "Bad Request");
    assert_eq!(parsed["message"], "a \"quoted\"\nline \\ é");
}

#[test]
fn error_response_has_the_text_of_its_code() {
    let error = ErrorResponse::new(409, "taken".to_string());
    assert_eq!(error.code, 409);
    assert_eq!(error.status, "Conflict");
    assert_eq!(error.message, "taken");
    assert_eq!(error.to_json(), "{\"code\":409,\"status\":\"Conflict\",\"message\":\"taken\"}");
}

#[test]
fn request_line_is_taken_apart() {
    let line = parse_request_line("GET /eggs?kind=plugins&x=1 HTTP/1.1\r\n").unwrap();
    assert_eq!(line.method, "GET");
    assert_eq!(line.path, "/eggs");
    assert_eq!(line.query_params.get("kind"), Some(&"plugins".to_string()));
    assert_eq!(line.query_params.get("x"), Some(&"1".to_string()));
    assert_eq!(line.query_params.len(), 2);

    let plain = parse_request_line("  POST\t/eggs/a/stop ").unwrap();
    assert_eq!(plain.method, "POST");
    assert_eq!(plain.path, "/eggs/a/stop");
    assert!(plain.query_params.is_empty());

    assert!(parse_request_line("GET").is_none());
    assert!(parse_request_line("").is_none());
    assert!(parse_request_line(" \r\n").is_none());
}

#[test]
fn target_is_split_at_its_first_question_mark() {
    let (path, params) = split_target("/a?b=c?d&e=f+g&b=%23last&=&h");
    assert_eq!(path, "/a");
    assert_eq!(params.get("b"), Some(&"#last".to_string()));
    assert_eq!(params.get("e"), Some(&"f g".to_string()));
    assert_eq!(params.get("h"), Some(&"".to_string()));
    assert_eq!(params.get(""), Some(&"".to_string()));
    assert_eq!(params.len(), 4);

    let (path, params) = split_target("/only/path");
    assert_eq!(path, "/only/path");
    assert!(params.is_empty());

    let (path, params) = split_target("?");
    assert_eq!(path, "");
    assert!(params.is_empty());
}

#[test]
fn headers_end_at_a_blank_line() {
    assert!(ends_headers("\r\n"));
    assert!(ends_headers(""));
    assert!(ends_headers(" \t "));
    assert!(!ends_headers("Host: x\r\n"));
    assert_eq!(header_of_line("  Host: x \r\n"), "Host: x");
    assert_eq!(header_of_line("\u{a0}A b\u{3000}"), "A b");
}

#[test]
fn content_length_is_read_from_the_first_header_that_gives_one() {
    let headers = |lines: &[&str]| lines.iter().map(|l| l.to_string()).collect::<Vec<String>>();
    assert_eq!(content_length(&headers(&["Host: x", "Content-Length: 12"])), 12);
    assert_eq!(content_length(&headers(&["content-length:7"])), 0);
    assert_eq!(content_length(&headers(&["CONTENT-LENGTH: 7"])), 7);
    assert_eq!(content_length(&headers(&["Content-Length: x", "content-length: 3"])), 3);
    assert_eq!(content_length(&headers(&["Content-Length: 5", "Content-Length: 6"])), 5);
    assert_eq!(content_length(&headers(&["Content-Length: 1 2 3"])), 3);
    assert_eq!(content_length(&headers(&["X-Content-Length: 5"])), 0);
    assert_eq!(content_length(&headers(&["Content-Length: -5"])), 0);
    assert_eq!(content_length(&headers(&[])), 0);
}

#[test]
fn a_request_is_made_of_its_parts() {
    let line = parse_request_line("PUT /eggs/a/env?x=y HTTP/1.0").unwrap();
    let request = Request::new(line, vec!["Host: h".to_string()], "{}".to_string());
    assert_eq!(request.method, "PUT");
    assert_eq!(request.path, "/eggs/a/env");
    assert_eq!(request.version, "HTTP/1.1");
    assert_eq!(request.headers, vec!["Host: h".to_string()]);
    assert_eq!(request.body, "{}");
    assert_eq!(request.query_params.get("x"), Some(&"y".to_string()));
    assert!(request.path_params.is_empty());
    let copy = request.clone();
    assert_eq!(copy.path, "/eggs/a/env");
    assert_eq!(copy.query_params.get("x"), Some(&"y".to_string()));
}

#[test]
fn default_headers_come_before_those_of_the_handler() {
    let text = get_headers_at(
        &vec!["Content-Type: application/json".to_string(), "X-A: b".to_string()],
        &vec![1, 2, 3],
        "Tue, 1 Jul 2003 10:52:37 +0200",
    );
    assert_eq!(
        text,
        "Server: kurv\r\nContent-Length: 3\r\nDate: Tue, 1 Jul 2003 10:52:37 +0200\r\n\
         Access-Control-Allow-Origin: *\r\nAccess-Control-Allow-Methods: GET, POST, OPTIONS\r\n\
         Access-Control-Allow-Headers: Content-Type\r\nContent-Type: application/json\r\nX-A: b"
    );
}

#[test]
fn headers_are_dated_now() {
    let text = get_headers(&vec![], &vec![]);
    let lines: Vec<&str> = text.split("\r\n").collect();
    assert_eq!(lines.len(), 6);
    assert_eq!(lines[0], "Server: kurv");
    assert_eq!(lines[1], "Content-Length: 0");
    assert!(lines[2].starts_with("Date: "));
    assert!(lines[2].len() > "Date: ".len() + 20);
    assert!(lines[2].ends_with("+0000"));
}

#[test]
fn a_response_is_written_head_first() {
    let response = json(200, b"{\"a\":1}".to_vec());
    let bytes = render_response(&response, "D");
    assert_eq!(
        String::from_utf8(bytes).unwrap(),
        "HTTP/1.1 200 OK\r\nServer: kurv\r\nContent-Length: 7\r\nDate: D\r\n\
         Access-Control-Allow-Origin: *\r\nAccess-Control-Allow-Methods: GET, POST, OPTIONS\r\n\
         Access-Control-Allow-Headers: Content-Type\r\nContent-Type: application/json\r\n\r\n{\"a\":1}"
    );
}

#[test]
fn a_body_is_written_as_it_is() {
    let response = Response { status: 500, headers: vec![], body: vec![0xff, 0x00, b'a'] };
    let bytes = render_response(&response, "D");
    assert!(bytes.starts_with(b"HTTP/1.1 500 Internal Server Error\r\nServer: kurv\r\nContent-Length: 3\r\n"));
    assert!(bytes.ends_with(&[b'\r', b'\n', b'\r', b'\n', 0xff, 0x00, b'a']));
}

#[test]
fn every_character_is_written_as_json_writes_it() {
    let written = |message: String| {
        let error = ErrorResponse { code: 1, status: String::new(), message };
        let text = error.to_json();
        let head = "{\"code\":1,\"status\":\"\",\"message\":\"";
        assert!(text.starts_with(head) && text.ends_with("\"}"), "{}", text);
        text[head.len()..text.len() - 2].to_string()
    };
    for code in 0u32..0x20 {
        let c = char::from_u32(code).unwrap();
        let expected = match c {
            '\u{8}' => "\\b".to_string(),
            '\t' => "\\t".to_string(),
            '\n' => "\\n".to_string(),
            '\u{c}' => "\\f".to_string(),
            '\r' => "\\r".to_string(),
            _ => format!("\\u00{:02x}", code),
        };
        assert_eq!(written(c.to_string()), expected);
    }
    assert_eq!(written("\u{1b}\u{1f}".to_string()), "\\u001b\\u001f");
    assert_eq!(written("\"".to_string()), "\\\"");
    assert_eq!(written("\\".to_string()), "\\\\");
    for plain in [" ", "/", "a", "\u{7f}", "\u{80}", "é", "€", "𝄞", "'", "<>&"] {
        assert_eq!(written(plain.to_string()), plain);
    }
    assert_eq!(written("a\"b\\c\nd\u{1}é".to_string()), "a\\\"b\\\\c\\nd\\u0001é");
    assert_eq!(written(String::new()), "");
}
