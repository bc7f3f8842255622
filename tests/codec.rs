use webcrawler::codec::{decimal_bytes, status_code, Decoder, Request, Response};
use webcrawler::fields::FieldMap;

const ACCEPT: &str = "Accept: text/html,application/xhtml+xml,application/xml;q=0.9,*/*;q=0.8\n";

fn b(s: &str) -> Vec<u8> {
    s.as_bytes().to_vec()
}

fn request(method: &str, uri: &str, host: &str, headers: FieldMap, body: &str) -> Request {
    Request { method: b(method), uri: b(uri), host: b(host), headers, body: b(body) }
}

#[test]
fn encode_plain_get() {
    let r = request("GET", "/x", "h", FieldMap::new(), "");
    let expected = format!("GET /x HTTP/1.1\nHost: h\n{}\n", ACCEPT);
    assert_eq!(r.encode(), b(&expected));
}

#[test]
fn encode_with_headers_and_body() {
    let mut headers = FieldMap::new();
    headers.insert(b("Connection"), b("Keep-Alive"));
    headers.insert(b("Cookie"), b("a=1; "));
    headers.insert(b("Connection"), b("close"));
    let r = request("POST", "/login", "example", headers, "user=me&pw=secret");
    let expected = format!(
        "POST /login HTTP/1.1\nHost: example\nConnection: close\nCookie: a=1; \nContent-Length: 17\n{}\nuser=me&pw=secret",
        ACCEPT
    );
    assert_eq!(r.encode(), b(&expected));
}

#[test]
fn encode_empty_body_has_no_content_length() {
    let r = request("GET", "/", "h", FieldMap::new(), "");
    let text = String::from_utf8(r.encode()).unwrap();
    assert!(!text.contains("Content-Length"));
}

#[test]
fn decimal_digits() {
    assert_eq!(decimal_bytes(0), b("0"));
    assert_eq!(decimal_bytes(7), b("7"));
    assert_eq!(decimal_bytes(4000), b("4000"));
    assert_eq!(decimal_bytes(1234567890), b("1234567890"));
}

#[test]
fn status_line_without_space_is_500() {
    let r = Response::decode(&b("garbage\nX: y\n\nbody"));
    assert_eq!(r.status, b("500"));
    assert_eq!(r.body, b("body"));
}

#[test]
fn status_404_is_read() {
    let r = Response::decode(&b("HTTP/1.1 404 Not Found\nContent-Type: text/html\n\n"));
    assert_eq!(r.status, b("404"));
    assert_eq!(r.headers.get(b"Content-Type"), Some(&b("text/html")));
}

#[test]
fn short_status_line_does_not_fail() {
    assert_eq!(status_code(b"HTTP/1.1 20"), b("500"));
    assert_eq!(status_code(b"HTTP/1.1 "), b("500"));
    assert_eq!(status_code(b"HTTP/1.1 200 OK"), b("200"));
    assert_eq!(status_code(b"HTTP/1.1"), b("500"));
}

#[test]
fn empty_input_is_500() {
    let r = Response::decode(&[]);
    assert_eq!(r.status, b("500"));
    assert_eq!(r.body, Vec::<u8>::new());
    let d = Decoder::new(&[]);
    assert!(!d.needs_more());
    assert_eq!(d.finish().status, b("500"));
}

#[test]
fn headers_cookies_and_body() {
    let input = b(
        "HTTP/1.1 200 OK\r\nSet-Cookie: sid=1; Path=/\r\nX-A: one\r\nbroken line\r\nSet-Cookie: csrftoken=t; \r\nX-A: two\r\n\r\nline one\r\nline two\r\n",
    );
    let r = Response::decode(&input);
    assert_eq!(r.status, b("200"));
    assert_eq!(r.set_cookies, vec![b("sid=1; Path=/"), b("csrftoken=t; ")]);
    assert_eq!(r.headers.get(b"X-A"), Some(&b("two")));
    assert_eq!(r.headers.get(b"broken line"), None);
    assert_eq!(r.headers.get(b"Set-Cookie"), None);
    assert_eq!(r.body, b("line oneline two"));
}

#[test]
fn header_without_value_is_empty() {
    let r = Response::decode(&b("HTTP/1.1 200 OK\nX:\n\n"));
    assert_eq!(r.headers.get(b"X"), Some(&Vec::new()));
}

#[test]
fn nul_padding_is_removed() {
    let mut input = b("HTTP/1.1 200 OK\n\n<p>hi</p>");
    input.extend(vec![0u8; 64]);
    let r = Response::decode(&input);
    assert_eq!(r.body, b("<p>hi</p>"));
}

#[test]
fn chunked_body_is_joined() {
    let r = Response::decode(&b("HTTP/1.1 200 OK\nTransfer-Encoding: chunked\n\n5\nhello\n0\n\n"));
    assert_eq!(r.body, b("hello"));
}

#[test]
fn chunked_body_stops_at_terminator() {
    let r = Response::decode(&b(
        "HTTP/1.1 200 OK\r\nTransfer-Encoding: chunked\r\n\r\n3\r\nabc\r\n2\r\nde\r\n0\r\n\r\nignored\r\n",
    ));
    assert_eq!(r.body, b("abcde"));
}

#[test]
fn chunked_body_across_reads() {
    let mut d = Decoder::new(&b("HTTP/1.1 200 OK\nTransfer-Encoding: chunked\n\n3\nabc\n"));
    assert!(d.needs_more());
    d.feed(&b("2\nde\n"));
    assert!(d.needs_more());
    d.feed(&b("0\n\n"));
    assert!(!d.needs_more());
    let r = d.finish();
    assert_eq!(r.body, b("abcde"));
}

#[test]
fn plain_body_needs_no_more() {
    let d = Decoder::new(&b("HTTP/1.1 200 OK\nContent-Length: 2\n\nok"));
    assert!(!d.needs_more());
    assert_eq!(d.finish().body, b("ok"));
}
