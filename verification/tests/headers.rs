use simple_http::http::request::HttpHeader;

#[test]
fn empty_collection_has_no_header() {
    let headers = HttpHeader::empty();
    assert_eq!(headers.len(), 0);
    assert!(headers.is_empty());
    assert_eq!(headers.get("Host"), None);
}

#[test]
fn insert_records_a_header() {
    let mut headers = HttpHeader::empty();
    headers.insert("Host".to_string(), "x".to_string());
    headers.insert("Accept".to_string(), "*/*".to_string());
    assert_eq!(headers.len(), 2);
    assert!(!headers.is_empty());
    assert_eq!(headers.get("Host"), Some(&"x".to_string()));
    assert_eq!(headers.get("Accept"), Some(&"*/*".to_string()));
    assert_eq!(headers.get("host"), None);
    assert_eq!(headers.get(""), None);
}

#[test]
fn insert_replaces_the_value_of_a_name() {
    let mut headers = HttpHeader::empty();
    headers.insert("A".to_string(), "1".to_string());
    headers.insert("B".to_string(), "2".to_string());
    headers.insert("A".to_string(), "3".to_string());
    assert_eq!(headers.len(), 2);
    assert_eq!(headers.get("A"), Some(&"3".to_string()));
    assert_eq!(headers.get("B"), Some(&"2".to_string()));
}

#[test]
fn header_block_gives_one_entry_per_line() {
    let headers =
        HttpHeader::new("GET / HTTP/1.1\r\nHost: example.org\r\n  Accept :  text/html \r\n\r\nbody")
            .unwrap();
    assert_eq!(headers.len(), 2);
    assert_eq!(headers.get("Host"), Some(&"example.org".to_string()));
    assert_eq!(headers.get("Accept"), Some(&"text/html".to_string()));
}

#[test]
fn header_line_is_cut_at_its_first_colon() {
    let headers = HttpHeader::new("GET / HTTP/1.1\r\nHost: localhost:5500\r\n\r\n").unwrap();
    assert_eq!(headers.len(), 1);
    assert_eq!(headers.get("Host"), Some(&"localhost:5500".to_string()));
}

#[test]
fn later_line_replaces_earlier_line_of_the_same_name() {
    let headers = HttpHeader::new("GET / HTTP/1.1\r\nA: 1\r\nB: 2\r\nA: 3\r\n\r\n").unwrap();
    assert_eq!(headers.len(), 2);
    assert_eq!(headers.get("A"), Some(&"3".to_string()));
    assert_eq!(headers.get("B"), Some(&"2".to_string()));
}

#[test]
fn line_without_colon_gives_no_headers() {
    assert!(HttpHeader::new("GET / HTTP/1.1\r\nHost: x\r\nbroken\r\nAccept: y\r\n\r\n").is_none());
    assert!(HttpHeader::new("GET / HTTP/1.1\r\nbroken\r\n\r\n").is_none());
    assert!(HttpHeader::new("GET / HTTP/1.1\r\nHost: x\r\nbroken\r\n\r\n").is_none());
}

#[test]
fn request_without_blank_line_gives_no_headers() {
    assert!(HttpHeader::new("GET / HTTP/1.1\r\nHost: x\r\n").is_none());
    assert!(HttpHeader::new("").is_none());
}

#[test]
fn request_line_is_no_header_line() {
    let headers = HttpHeader::new("GET / HTTP/1.1\r\n\r\n").unwrap();
    assert!(headers.is_empty());
    let headers = HttpHeader::new("\r\n\r\n").unwrap();
    assert!(headers.is_empty());
    let headers = HttpHeader::new("a:b\r\n\r\n").unwrap();
    assert!(headers.is_empty());
}

#[test]
fn lines_after_the_blank_line_are_no_headers() {
    let headers = HttpHeader::new("GET / HTTP/1.1\r\nA: 1\r\n\r\nB: 2\r\nbroken\r\n\r\n").unwrap();
    assert_eq!(headers.len(), 1);
    assert_eq!(headers.get("A"), Some(&"1".to_string()));
    assert_eq!(headers.get("B"), None);
}

#[test]
fn empty_name_and_value_are_kept() {
    let headers = HttpHeader::new("GET / HTTP/1.1\r\n:\r\n\r\n").unwrap();
    assert_eq!(headers.len(), 1);
    assert_eq!(headers.get(""), Some(&"".to_string()));
}
