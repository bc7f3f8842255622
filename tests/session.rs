use webcrawler::codec::Response;
use webcrawler::fields::FieldMap;
use webcrawler::session::{
    check_login, entry_request, login_request, page_request, parse_set_cookie, send_cookies,
    update_cookies, LoginFailed,
};

fn b(s: &str) -> Vec<u8> {
    s.as_bytes().to_vec()
}

fn response_with(status: &str, cookies: &[&str]) -> Response {
    Response {
        status: b(status),
        headers: FieldMap::new(),
        set_cookies: cookies.iter().map(|c| b(c)).collect(),
        body: Vec::new(),
    }
}

#[test]
fn cookie_is_rendered() {
    let mut jar = FieldMap::new();
    update_cookies(&mut jar, &response_with("200", &["sid=abc123; Path=/"]));
    let text = String::from_utf8(send_cookies(&jar)).unwrap();
    assert!(text.contains("sid=abc123; "));
}

#[test]
fn later_cookie_replaces_earlier() {
    let mut jar = FieldMap::new();
    update_cookies(&mut jar, &response_with("200", &["a=1; Path=/", "b=2;"]));
    update_cookies(&mut jar, &response_with("302", &["a=3; HttpOnly"]));
    assert_eq!(jar.get(b"a"), Some(&b("3")));
    assert_eq!(send_cookies(&jar), b("a=3; b=2; "));
}

#[test]
fn malformed_cookie_lines_are_skipped() {
    let mut jar = FieldMap::new();
    update_cookies(&mut jar, &response_with("200", &["noequals; Path=/", "x=no-semicolon", "ok=1;"]));
    assert_eq!(jar.len(), 1);
    assert_eq!(send_cookies(&jar), b("ok=1; "));
}

#[test]
fn set_cookie_parts() {
    assert_eq!(parse_set_cookie(b"k=v; a=b"), Some((b("k"), b("v"))));
    assert_eq!(parse_set_cookie(b"k=;"), Some((b("k"), b(""))));
    assert_eq!(parse_set_cookie(b"k"), None);
}

#[test]
fn empty_jar_renders_empty() {
    assert_eq!(send_cookies(&FieldMap::new()), Vec::<u8>::new());
}

#[test]
fn entry_request_shape() {
    let r = entry_request(b("host"));
    let text = String::from_utf8(r.encode()).unwrap();
    assert!(text.starts_with("GET /accounts/login/?next=/fakebook/ HTTP/1.1\nHost: host\nConnection: Keep-Alive\n"));
}

#[test]
fn login_request_shape() {
    let mut jar = FieldMap::new();
    update_cookies(&mut jar, &response_with("200", &["csrftoken=T; Path=/"]));
    let r = login_request(b("host"), &jar, b"me", b"pw", b"tok");
    assert_eq!(r.method, b("POST"));
    assert_eq!(r.uri, b("/accounts/login/"));
    assert_eq!(r.body, b("username=me&password=pw&csrfmiddlewaretoken=tok&next=%2Ffakebook%2F"));
    assert_eq!(r.headers.get(b"Cookie"), Some(&b("csrftoken=T; ")));
    assert_eq!(r.headers.get(b"Content-Type"), Some(&b("application/x-www-form-urlencoded")));
    let text = String::from_utf8(r.encode()).unwrap();
    assert!(text.contains("Content-Length: 67\n"));
}

#[test]
fn page_request_shape() {
    let r = page_request(b("h"), b("/fakebook/1/"), b("sid=1; "));
    let text = String::from_utf8(r.encode()).unwrap();
    assert!(text.starts_with("GET /fakebook/1/ HTTP/1.1\nHost: h\nConnection: Keep-Alive\nCookie: sid=1; \n"));
}

#[test]
fn login_needs_302() {
    assert_eq!(check_login(&response_with("302", &[])), Ok(()));
    assert_eq!(check_login(&response_with("200", &[])), Err(LoginFailed));
    assert_eq!(check_login(&response_with("500", &[])), Err(LoginFailed));
}
