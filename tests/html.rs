use webcrawler::html::{find_csrf, find_flags, find_links, Node, NodeData};

fn b(s: &str) -> Vec<u8> {
    s.as_bytes().to_vec()
}

fn el(name: &str, attrs: &[(&str, &str)], children: Vec<Node>) -> Node {
    Node {
        data: NodeData::Element {
            name: b(name),
            attrs: attrs.iter().map(|(k, v)| (b(k), b(v))).collect(),
        },
        children,
    }
}

fn text(s: &str) -> Node {
    Node { data: NodeData::Text { contents: b(s) }, children: Vec::new() }
}

fn doc(children: Vec<Node>) -> Node {
    Node { data: NodeData::Other, children }
}

#[test]
fn token_is_found() {
    let d = doc(vec![el("form", &[], vec![
        el("input", &[("type", "hidden"), ("name", "other"), ("value", "no")], vec![]),
        el("input", &[("type", "hidden"), ("name", "csrfmiddlewaretoken"), ("value", "abc")], vec![]),
        el("input", &[("name", "csrfmiddlewaretoken"), ("value", "later")], vec![]),
    ])]);
    assert_eq!(find_csrf(&d, b"csrfmiddlewaretoken"), Some(b("abc")));
}

#[test]
fn token_missing() {
    let d = doc(vec![el("div", &[("name", "csrfmiddlewaretoken"), ("value", "x")], vec![])]);
    assert_eq!(find_csrf(&d, b"csrfmiddlewaretoken"), None);
}

#[test]
fn links_in_preorder_without_absolute() {
    let d = doc(vec![
        el("a", &[("href", "/one/")], vec![el("a", &[("href", "/nested/")], vec![])]),
        el("p", &[], vec![
            el("a", &[("href", "http://elsewhere/")], vec![]),
            el("a", &[("href", "https://elsewhere/")], vec![]),
            el("a", &[("href", "mailto:x@y")], vec![]),
            el("a", &[("href", "/two/")], vec![]),
        ]),
        el("a", &[("href", "/x")], vec![]),
        el("link", &[("href", "/style.css")], vec![]),
    ]);
    assert_eq!(find_links(&d), vec![b("/one/"), b("/nested/"), b("/two/"), b("/x")]);
}

#[test]
fn marked_text_is_trimmed() {
    let d = doc(vec![
        el("h2", &[], vec![text("not this")]),
        el("h2", &[("class", "secret_flag"), ("style", "color:red")], vec![text("  FLAG: 123  \n")]),
    ]);
    assert_eq!(find_flags(&d, b"secret_flag", false), Some(b("FLAG: 123")));
}

#[test]
fn marked_text_only_below_marker() {
    let d = doc(vec![
        el("h2", &[("class", "secret_flag")], vec![]),
        el("p", &[], vec![text("after, not below")]),
    ]);
    assert_eq!(find_flags(&d, b"secret_flag", false), None);
    assert_eq!(find_flags(&text("t"), b"secret_flag", true), Some(b("t")));
}
