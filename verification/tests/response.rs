use simple_http::http::request::{HttpRequest, Version};
use simple_http::http::response::{AcceptRanges, HttpResponse, Lookup, ResponseStatus};

const NOT_FOUND_PAGE: &str = "<html><body><h1>404 NOT FOUND</h1></body></html>";

fn request(path: &str) -> HttpRequest {
    HttpRequest::new(&format!("GET /{} HTTP/1.1\r\n\r\n", path)).unwrap()
}

fn payload_section(response: &HttpResponse) -> &str {
    response.response_body.split_once("\r\n\r\n").unwrap().1
}

#[test]
fn status_has_text_and_number() {
    assert_eq!(ResponseStatus::OK.to_string(), "200 OK");
    assert_eq!(ResponseStatus::NotFound.to_string(), "404 NOT FOUND");
    assert_eq!(ResponseStatus::OK.code(), 200);
    assert_eq!(ResponseStatus::NotFound.code(), 404);
}

#[test]
fn accept_ranges_has_its_header_line() {
    assert_eq!(AcceptRanges::Bytes.to_string(), "accept-ranges: bytes");
    assert_eq!(AcceptRanges::NoRanges.to_string(), "accept-ranges: none");
}

#[test]
fn file_is_sent_as_it_is() {
    let content = "line one\r\n\r\nline two\n";
    let response = HttpResponse::new(&request("a.txt"), &Lookup::File(content.to_string()));
    assert_eq!(response.version, Version::V2_0);
    assert_eq!(response.status, ResponseStatus::OK);
    assert_eq!(response.accept_ranges, AcceptRanges::Bytes);
    assert_eq!(response.content_length, 21);
    assert_eq!(response.current_path, "a.txt");
    assert_eq!(
        response.response_body,
        "HTTP/2 200 OK\naccept-ranges: bytes\ncontent-length: 21\r\n\r\nline one\r\n\r\nline two\n"
    );
    assert_eq!(payload_section(&response), content);
}

#[test]
fn empty_file_is_sent_with_length_zero() {
    let response = HttpResponse::new(&request("empty"), &Lookup::File(String::new()));
    assert_eq!(response.status, ResponseStatus::OK);
    assert_eq!(response.content_length, 0);
    assert_eq!(
        response.response_body,
        "HTTP/2 200 OK\naccept-ranges: bytes\ncontent-length: 0\r\n\r\n"
    );
}

#[test]
fn content_length_counts_bytes() {
    let content = "caf\u{e9} \u{20ac} \u{1f600}";
    let response = HttpResponse::new(&request("u"), &Lookup::File(content.to_string()));
    assert_eq!(response.content_length, 14);
    assert_eq!(response.content_length, content.len());
    assert_eq!(response.content_length, payload_section(&response).len());
    assert!(response.response_body.contains("\ncontent-length: 14\r\n\r\n"));
}

#[test]
fn content_length_is_the_length_of_the_payload_section() {
    let found = [
        Lookup::File("hi".to_string()),
        Lookup::File(String::new()),
        Lookup::File("x".repeat(12345)),
        Lookup::File("\r\n\r\n".to_string()),
        Lookup::File("\u{e9}".repeat(100)),
        Lookup::NotAFile,
        Lookup::Missing,
    ];
    for found in &found {
        let response = HttpResponse::new(&request("p"), found);
        let payload = payload_section(&response);
        assert_eq!(response.content_length, payload.len());
        let announced = format!("\ncontent-length: {}", payload.len());
        assert!(response.response_body.split_once("\r\n\r\n").unwrap().0.ends_with(&announced));
    }
}

#[test]
fn missing_and_directory_give_the_same_page() {
    for found in [Lookup::Missing, Lookup::NotAFile] {
        let response = HttpResponse::new(&request("nowhere"), &found);
        assert_eq!(response.version, Version::V2_0);
        assert_eq!(response.status, ResponseStatus::NotFound);
        assert_eq!(response.accept_ranges, AcceptRanges::NoRanges);
        assert_eq!(response.content_length, 48);
        assert_eq!(response.current_path, "nowhere");
        assert_eq!(payload_section(&response), NOT_FOUND_PAGE);
        assert_eq!(
            response.response_body,
            "HTTP/2 404 NOT FOUND\naccept-ranges: none\ncontent-length: 48\r\n\r\n\
             <html><body><h1>404 NOT FOUND</h1></body></html>"
        );
    }
}

#[test]
fn response_is_written_in_one_version() {
    for text in ["GET /x HTTP/1.1\r\n\r\n", "GET /x HTTP/2\r\n\r\n", "GET /x HTTP/2.0\r\n\r\n"] {
        let request = HttpRequest::new(text).unwrap();
        let response = request.response(&Lookup::File("hi".to_string()));
        assert_eq!(response.version, Version::V2_0);
        assert!(response.response_body.starts_with("HTTP/2 200 OK\n"));
    }
}

#[test]
fn response_keeps_the_path_asked_for() {
    let request = HttpRequest::new("POST /a/b.txt HTTP/2\r\n\r\n").unwrap();
    assert_eq!(request.response(&Lookup::Missing).current_path, "a/b.txt");
    let request = HttpRequest::new("FOO /a HTTP/2\r\n\r\n").unwrap();
    assert_eq!(request.response(&Lookup::Missing).current_path, "");
}
