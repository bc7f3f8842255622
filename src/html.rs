//! A parsed document tree and the three read-only queries the crawler runs
//! on it: the anti-forgery token, the links to follow, and the marked text.
use vstd::prelude::*;
use crate::text::{byte_seqs, bytes_eq, slice_to_vec, trim_ws, trim_ws_vec};
use crate::words::{
    attr_class, attr_class_bytes, attr_href, attr_href_bytes, attr_name, attr_name_bytes, attr_value,
    attr_value_bytes, http_prefix, http_prefix_bytes, https_prefix, https_prefix_bytes,
    mailto_prefix, mailto_prefix_bytes, tag_a, tag_a_bytes, tag_input, tag_input_bytes,
};

verus! {

/// What a node of the document is.
pub enum NodeData {
    /// An element with its local name and its attributes (local name, value), in order.
    Element { name: Vec<u8>, attrs: Vec<(Vec<u8>, Vec<u8>)> },
    /// A text node.
    Text { contents: Vec<u8> },
    /// The document itself, a comment, a doctype or a processing instruction.
    Other,
}

/// A node of the document with its children in document order.
pub struct Node {
    pub data: NodeData,
    pub children: Vec<Node>,
}

/// Attributes as byte sequences.
pub open spec fn attr_seq(attrs: Seq<(Vec<u8>, Vec<u8>)>) -> Seq<(Seq<u8>, Seq<u8>)> {
    attrs.map_values(|p: (Vec<u8>, Vec<u8>)| (p.0@, p.1@))
}

/// Some attribute is named `key` and has the value `val`.
pub open spec fn has_attr(attrs: Seq<(Seq<u8>, Seq<u8>)>, key: Seq<u8>, val: Seq<u8>) -> bool {
    exists|i: int| 0 <= i < attrs.len() && #[trigger] attrs[i] == (key, val)
}

/// The value of the first attribute named `key`.
pub open spec fn first_attr(attrs: Seq<(Seq<u8>, Seq<u8>)>, key: Seq<u8>) -> Option<Seq<u8>>
    decreases attrs.len(),
{
    if attrs.len() == 0 {
        None
    } else if attrs[0].0 == key {
        Some(attrs[0].1)
    } else {
        first_attr(attrs.drop_first(), key)
    }
}

/// The token that this node itself offers: an `input` element whose `name`
/// is `field` offers its `value`.
pub open spec fn token_here(n: Node, field: Seq<u8>) -> Option<Seq<u8>> {
    match n.data {
        NodeData::Element { name, attrs } => {
            if name@ == tag_input() && has_attr(attr_seq(attrs@), attr_name(), field) {
                first_attr(attr_seq(attrs@), attr_value())
            } else {
                None
            }
        },
        _ => None,
    }
}

/// The first token in pre-order depth-first order.
pub open spec fn token_in(n: Node, field: Seq<u8>) -> Option<Seq<u8>>
    decreases n, n.children.len() + 1,
{
    match token_here(n, field) {
        Some(t) => Some(t),
        None => token_in_kids(n, field, 0),
    }
}

/// The first token under the children of `n` from the `k`-th on.
pub open spec fn token_in_kids(n: Node, field: Seq<u8>, k: int) -> Option<Seq<u8>>
    decreases n, n.children.len() - k,
{
    if 0 <= k < n.children.len() {
        match token_in(n.children[k], field) {
            Some(t) => Some(t),
            None => token_in_kids(n, field, k + 1),
        }
    } else {
        None
    }
}

/// A link is followed unless it is an absolute http(s) or a mail link.
pub open spec fn followed(link: Seq<u8>) -> bool {
    link.len() < 6 || (link.take(6) != http_prefix() && link.take(6) != https_prefix() && link.take(6)
        != mailto_prefix())
}

/// The followed `href` values among `attrs`, in order.
pub open spec fn hrefs(attrs: Seq<(Seq<u8>, Seq<u8>)>) -> Seq<Seq<u8>>
    decreases attrs.len(),
{
    if attrs.len() == 0 {
        Seq::empty()
    } else if attrs.last().0 == attr_href() && followed(attrs.last().1) {
        hrefs(attrs.drop_last()).push(attrs.last().1)
    } else {
        hrefs(attrs.drop_last())
    }
}

/// The links that this node itself offers: those of an anchor element.
pub open spec fn links_here(n: Node) -> Seq<Seq<u8>> {
    match n.data {
        NodeData::Element { name, attrs } => {
            if name@ == tag_a() {
                hrefs(attr_seq(attrs@))
            } else {
                Seq::empty()
            }
        },
        _ => Seq::empty(),
    }
}

/// Every followed link, in pre-order depth-first order.
pub open spec fn links_in(n: Node) -> Seq<Seq<u8>>
    decreases n, n.children.len() + 1,
{
    links_here(n) + links_in_kids(n, 0)
}

/// The links under the children of `n` from the `k`-th on.
pub open spec fn links_in_kids(n: Node, k: int) -> Seq<Seq<u8>>
    decreases n, n.children.len() - k,
{
    if 0 <= k < n.children.len() {
        links_in(n.children[k]) + links_in_kids(n, k + 1)
    } else {
        Seq::empty()
    }
}

/// The node is an element whose `class` attribute is `marker`.
pub open spec fn carries_marker(n: Node, marker: Seq<u8>) -> bool {
    match n.data {
        NodeData::Element { name, attrs } => has_attr(attr_seq(attrs@), attr_class(), marker),
        _ => false,
    }
}

/// The first text node, in pre-order depth-first order, that lies under a
/// marked element (`seen`: one was met on the path to `n`), trimmed.
pub open spec fn marked_in(n: Node, marker: Seq<u8>, seen: bool) -> Option<Seq<u8>>
    decreases n, n.children.len() + 1,
{
    match n.data {
        NodeData::Text { contents } => {
            if seen {
                Some(trim_ws(contents@))
            } else {
                marked_in_kids(n, marker, seen, 0)
            }
        },
        _ => marked_in_kids(n, marker, seen || carries_marker(n, marker), 0),
    }
}

/// The first marked text under the children of `n` from the `k`-th on.
pub open spec fn marked_in_kids(n: Node, marker: Seq<u8>, seen: bool, k: int) -> Option<Seq<u8>>
    decreases n, n.children.len() - k,
{
    if 0 <= k < n.children.len() {
        match marked_in(n.children[k], marker, seen) {
            Some(t) => Some(t),
            None => marked_in_kids(n, marker, seen, k + 1),
        }
    } else {
        None
    }
}

/// Whether some attribute is named `key` with the value `val`.
fn attr_present(attrs: &Vec<(Vec<u8>, Vec<u8>)>, key: &[u8], val: &[u8]) -> (r: bool)
    ensures
        r == has_attr(attr_seq(attrs@), key@, val@),
{
    let ghost s = attr_seq(attrs@);
    let mut i: usize = 0;
    while i < attrs.len()
        invariant
            i <= attrs@.len(),
            s == attr_seq(attrs@),
            forall|j: int| 0 <= j < i ==> #[trigger] s[j] != (key@, val@),
        decreases attrs.len() - i,
    {
        if bytes_eq(attrs[i].0.as_slice(), key) && bytes_eq(attrs[i].1.as_slice(), val) {
            assert(s[i as int] == (key@, val@));
            return true;
        }
        i = i + 1;
    }
    false
}

/// A copy of the value of the first attribute named `key`.
fn attr_lookup(attrs: &Vec<(Vec<u8>, Vec<u8>)>, key: &[u8]) -> (r: Option<Vec<u8>>)
    ensures
        r is None <==> first_attr(attr_seq(attrs@), key@) is None,
        r is Some ==> first_attr(attr_seq(attrs@), key@) == Some(r->0@),
{
    let ghost s = attr_seq(attrs@);
    let mut i: usize = 0;
    assert(s.skip(0) == s);
    while i < attrs.len()
        invariant
            i <= attrs@.len(),
            s == attr_seq(attrs@),
            first_attr(s, key@) == first_attr(s.skip(i as int), key@),
        decreases attrs.len() - i,
    {
        assert(s.skip(i as int).drop_first() == s.skip(i + 1));
        if bytes_eq(attrs[i].0.as_slice(), key) {
            let v = &attrs[i].1;
            return Some(slice_to_vec(v.as_slice(), 0, v.len()));
        }
        i = i + 1;
    }
    None
}

/// Pre-order depth-first search for an `input` element named `field`; its `value`.
pub fn find_csrf(node: &Node, field: &[u8]) -> (r: Option<Vec<u8>>)
    ensures
        r is None <==> token_in(*node, field@) is None,
        r is Some ==> token_in(*node, field@) == Some(r->0@),
    decreases node,
{
    if let NodeData::Element { name, attrs } = &node.data {
        if bytes_eq(name.as_slice(), tag_input_bytes().as_slice()) && attr_present(
            attrs,
            attr_name_bytes().as_slice(),
            field,
        ) {
            let v = attr_lookup(attrs, attr_value_bytes().as_slice());
            if v.is_some() {
                return v;
            }
        }
    }
    assert(token_here(*node, field@) is None);
    let mut i: usize = 0;
    while i < node.children.len()
        invariant
            i <= node.children@.len(),
            token_in(*node, field@) == token_in_kids(*node, field@, i as int),
        decreases node.children.len() - i,
    {
        let r = find_csrf(&node.children[i], field);
        if r.is_some() {
            return r;
        }
        i = i + 1;
    }
    None
}

/// The followed `href` values of an anchor's attributes.
fn anchor_links(attrs: &Vec<(Vec<u8>, Vec<u8>)>) -> (r: Vec<Vec<u8>>)
    ensures
        byte_seqs(r@) == hrefs(attr_seq(attrs@)),
{
    let ghost s = attr_seq(attrs@);
    let href = attr_href_bytes();
    let http = http_prefix_bytes();
    let https = https_prefix_bytes();
    let mailto = mailto_prefix_bytes();
    let mut out: Vec<Vec<u8>> = Vec::new();
    let mut i: usize = 0;
    while i < attrs.len()
        invariant
            i <= attrs@.len(),
            s == attr_seq(attrs@),
            href@ == attr_href(),
            http@ == http_prefix(),
            https@ == https_prefix(),
            mailto@ == mailto_prefix(),
            byte_seqs(out@) == hrefs(s.take(i as int)),
        decreases attrs.len() - i,
    {
        assert(s.take(i + 1).drop_last() == s.take(i as int));
        let link = &attrs[i].1;
        if bytes_eq(attrs[i].0.as_slice(), href.as_slice()) {
            let keep = if link.len() < 6 {
                true
            } else {
                let head = slice_to_vec(link.as_slice(), 0, 6);
                !bytes_eq(head.as_slice(), http.as_slice()) && !bytes_eq(
                    head.as_slice(),
                    https.as_slice(),
                ) && !bytes_eq(head.as_slice(), mailto.as_slice())
            };
            if keep {
                let ghost before = out@;
                let copy = slice_to_vec(link.as_slice(), 0, link.len());
                assert(copy@ == link@);
                out.push(copy);
                assert(byte_seqs(out@) =~= byte_seqs(before).push(link@));
            }
        }
        i = i + 1;
    }
    assert(s.take(s.len() as int) == s);
    out
}

/// Every followed link, in pre-order depth-first order.
pub fn find_links(node: &Node) -> (r: Vec<Vec<u8>>)
    ensures
        byte_seqs(r@) == links_in(*node),
    decreases node,
{
    let mut out: Vec<Vec<u8>> = Vec::new();
    if let NodeData::Element { name, attrs } = &node.data {
        if bytes_eq(name.as_slice(), tag_a_bytes().as_slice()) {
            out = anchor_links(attrs);
        }
    }
    assert(byte_seqs(out@) == links_here(*node));
    let mut i: usize = 0;
    while i < node.children.len()
        invariant
            i <= node.children@.len(),
            links_in(*node) == byte_seqs(out@) + links_in_kids(*node, i as int),
        decreases node.children.len() - i,
    {
        let mut more = find_links(&node.children[i]);
        let ghost before = out@;
        let ghost added = more@;
        out.append(&mut more);
        assert(byte_seqs(out@) =~= byte_seqs(before) + byte_seqs(added));
        i = i + 1;
    }
    assert(links_in_kids(*node, i as int) =~= Seq::<Seq<u8>>::empty());
    out
}

/// The first text node under an element whose `class` is `marker`, trimmed;
/// `flag_found` says that such an element encloses `node`.
pub fn find_flags(node: &Node, marker: &[u8], flag_found: bool) -> (r: Option<Vec<u8>>)
    ensures
        r is None <==> marked_in(*node, marker@, flag_found) is None,
        r is Some ==> marked_in(*node, marker@, flag_found) == Some(r->0@),
    decreases node,
{
    let mut seen = flag_found;
    match &node.data {
        NodeData::Element { name: _, attrs } => {
            if attr_present(attrs, attr_class_bytes().as_slice(), marker) {
                seen = true;
            }
        },
        NodeData::Text { contents } => {
            if seen {
                return Some(trim_ws_vec(contents.as_slice()));
            }
        },
        NodeData::Other => {},
    }
    let mut i: usize = 0;
    while i < node.children.len()
        invariant
            i <= node.children@.len(),
            marked_in(*node, marker@, flag_found) == marked_in_kids(*node, marker@, seen, i as int),
        decreases node.children.len() - i,
    {
        let r = find_flags(&node.children[i], marker, seen);
        if r.is_some() {
            return r;
        }
        i = i + 1;
    }
    None
}

} // verus!
