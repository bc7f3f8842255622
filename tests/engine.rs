use webcrawler::codec::Response;
use webcrawler::engine::{CrawlError, Crawler, Outcome, Step};
use webcrawler::fields::FieldMap;
use webcrawler::html::{Node, NodeData};

fn b(s: &str) -> Vec<u8> {
    s.as_bytes().to_vec()
}

fn response(status: &str, headers: &[(&str, &str)]) -> Response {
    let mut map = FieldMap::new();
    for (k, v) in headers {
        map.insert(b(k), b(v));
    }
    Response { status: b(status), headers: map, set_cookies: Vec::new(), body: Vec::new() }
}

fn with_cookies(mut r: Response, cookies: &[&str]) -> Response {
    r.set_cookies = cookies.iter().map(|c| b(c)).collect();
    r
}

fn page(links: &[&str], flag: Option<&str>) -> Node {
    let mut children: Vec<Node> = links
        .iter()
        .map(|l| Node {
            data: NodeData::Element { name: b("a"), attrs: vec![(b("href"), b(l))] },
            children: Vec::new(),
        })
        .collect();
    if let Some(f) = flag {
        children.push(Node {
            data: NodeData::Element { name: b("h2"), attrs: vec![(b("class"), b("secret_flag"))] },
            children: vec![Node { data: NodeData::Text { contents: b(f) }, children: Vec::new() }],
        });
    }
    Node { data: NodeData::Other, children }
}

fn empty() -> Node {
    page(&[], None)
}

#[test]
fn single_result_ends_crawl() {
    let mut c = Crawler::new(b("/a"), 1, FieldMap::new());
    assert!(!c.is_done());
    let t = c.next_target().unwrap();
    assert_eq!(t, b("/a"));
    let step = c.on_response(t, &response("200", &[]), &page(&[], Some("FLAG: 1"))).unwrap();
    assert_eq!(step, Step { outcome: Outcome::Accepted, reconnect: false });
    assert!(c.is_done());
    assert_eq!(c.results(), &vec![b("FLAG: 1")]);
    assert_eq!(c.frontier_len(), 0);
    assert_eq!(c.next_target(), None);
}

#[test]
fn self_redirect_is_processed_once() {
    let mut c = Crawler::new(b("/a"), 5, FieldMap::new());
    let t = c.next_target().unwrap();
    let step = c.on_response(t, &response("301", &[("Location", "/a")]), &empty()).unwrap();
    assert_eq!(step.outcome, Outcome::Redirected);
    assert_eq!(c.frontier_len(), 0);
    assert!(c.is_done());
}

#[test]
fn redirect_queues_new_location() {
    let mut c = Crawler::new(b("/a"), 5, FieldMap::new());
    let t = c.next_target().unwrap();
    c.on_response(t, &response("301", &[("Location", "/b")]), &empty()).unwrap();
    assert_eq!(c.next_target(), Some(b("/b")));
}

#[test]
fn redirect_without_location_fails() {
    let mut c = Crawler::new(b("/a"), 5, FieldMap::new());
    let t = c.next_target().unwrap();
    assert_eq!(c.on_response(t, &response("301", &[]), &empty()), Err(CrawlError::MissingLocation));
}

#[test]
fn retries_then_accepts() {
    let mut c = Crawler::new(b("/a"), 5, FieldMap::new());
    for _ in 0..3 {
        let t = c.next_target().unwrap();
        assert_eq!(t, b("/a"));
        let step = c.on_response(t, &response("500", &[("Connection", "close")]), &empty()).unwrap();
        assert_eq!(step, Step { outcome: Outcome::Retry, reconnect: true });
        assert_eq!(c.frontier_len(), 1);
    }
    let t = c.next_target().unwrap();
    let step = c.on_response(t, &response("200", &[]), &page(&[], Some("F"))).unwrap();
    assert_eq!(step.outcome, Outcome::Accepted);
    assert_eq!(c.results(), &vec![b("F")]);
    assert_eq!(c.frontier_len(), 0);
}

#[test]
fn skipped_targets_are_not_requeued() {
    let mut c = Crawler::new(b("/a"), 5, FieldMap::new());
    let t = c.next_target().unwrap();
    c.on_response(t, &response("200", &[]), &page(&["/gone", "/secret", "/a"], None)).unwrap();
    assert_eq!(c.frontier_len(), 2);
    let t = c.next_target().unwrap();
    assert_eq!(c.on_response(t, &response("404", &[]), &empty()).unwrap().outcome, Outcome::Skipped);
    let t = c.next_target().unwrap();
    assert_eq!(c.on_response(t, &response("403", &[]), &empty()).unwrap().outcome, Outcome::Skipped);
    assert!(c.is_done());
}

#[test]
fn links_keep_breadth_first_order_and_results_stay_unique() {
    let mut c = Crawler::new(b("/"), 3, FieldMap::new());
    let t = c.next_target().unwrap();
    c.on_response(t, &response("200", &[("Connection", "close")]), &page(&["/1", "/2"], Some("X"))).unwrap();
    let t = c.next_target().unwrap();
    assert_eq!(t, b("/1"));
    let step = c.on_response(t, &response("200", &[]), &page(&["/3", "/"], Some("X"))).unwrap();
    assert!(!step.reconnect);
    assert_eq!(c.results(), &vec![b("X")]);
    assert_eq!(c.next_target(), Some(b("/2")));
    assert_eq!(c.next_target(), Some(b("/3")));
    assert_eq!(c.next_target(), None);
}

#[test]
fn crawl_responses_update_the_jar() {
    let mut jar = FieldMap::new();
    jar.insert(b("sessionid"), b("old"));
    let mut c = Crawler::new(b("/a"), 5, jar);
    let t = c.next_target().unwrap();
    let first = c.request_for(b("h"), t.clone());
    assert_eq!(first.headers.get(b"Cookie"), Some(&b("sessionid=old; ")));
    let r = with_cookies(response("500", &[]), &["sessionid=new; Path=/", "csrftoken=x;"]);
    c.on_response(t, &r, &empty()).unwrap();
    let t = c.next_target().unwrap();
    let again = c.request_for(b("h"), t);
    assert_eq!(again.uri, b("/a"));
    assert_eq!(again.headers.get(b"Cookie"), Some(&b("sessionid=new; csrftoken=x; ")));
}

#[test]
fn retry_goes_behind_other_targets() {
    let mut c = Crawler::new(b("/"), 5, FieldMap::new());
    let t = c.next_target().unwrap();
    c.on_response(t, &response("200", &[]), &page(&["/a", "/b"], None)).unwrap();
    assert_eq!(c.frontier_len(), 2);
    let t = c.next_target().unwrap();
    assert_eq!(t, b("/a"));
    c.on_response(t, &response("500", &[]), &empty()).unwrap();
    assert_eq!(c.frontier_len(), 2);
    assert_eq!(c.next_target(), Some(b("/b")));
    assert_eq!(c.next_target(), Some(b("/a")));
}
