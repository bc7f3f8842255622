//! Session state: the cookie jar and the login handshake's requests.
use vstd::prelude::*;
use crate::codec::{Request, Response};
use crate::fields::{FieldMap, names_unique, pairs_map};
use crate::text::{append_bytes, byte_seqs, bytes_eq, find_byte, find_byte_from, first_index, slice_to_vec};
use crate::words::{
    connection, connection_bytes, content_type, content_type_bytes, cookie, cookie_bytes,
    cookie_sep, cookie_sep_bytes, form_next, form_next_bytes, form_password, form_password_bytes,
    form_token, form_token_bytes, form_type, form_type_bytes, form_username, form_username_bytes,
    get, get_bytes, keep_alive, keep_alive_bytes, login_entry_path, login_entry_path_bytes,
    login_path, login_path_bytes, post, post_bytes, status_302, status_302_bytes,
};

verus! {

/// The cookie that a Set-Cookie line sets: the name before the first `=`, the
/// value between that `=` and the next `;`. A line that lacks either sets none.
pub open spec fn cookie_of(line: Seq<u8>) -> Option<(Seq<u8>, Seq<u8>)> {
    let e = first_index(line, 61);
    if e >= line.len() {
        None
    } else {
        let s = e + 1 + first_index(line.skip(e + 1), 59);
        if s >= line.len() {
            None
        } else {
            Some((line.take(e), line.subrange(e + 1, s)))
        }
    }
}

/// The jar after applying Set-Cookie lines in order.
pub open spec fn apply_cookies(jar: Map<Seq<u8>, Seq<u8>>, ls: Seq<Seq<u8>>) -> Map<Seq<u8>, Seq<u8>>
    decreases ls.len(),
{
    if ls.len() == 0 {
        jar
    } else {
        let m = apply_cookies(jar, ls.drop_last());
        match cookie_of(ls.last()) {
            Some(c) => m.insert(c.0, c.1),
            None => m,
        }
    }
}

/// The jar rendered as `name=value; ` for each cookie, in the jar's order.
pub open spec fn render(s: Seq<(Seq<u8>, Seq<u8>)>) -> Seq<u8>
    decreases s.len(),
{
    if s.len() == 0 {
        Seq::empty()
    } else {
        render(s.drop_last()) + s.last().0 + seq![61u8] + s.last().1 + cookie_sep()
    }
}

/// The URL-encoded login form.
pub open spec fn login_form(username: Seq<u8>, password: Seq<u8>, token: Seq<u8>) -> Seq<u8> {
    form_username() + username + form_password() + password + form_token() + token + form_next()
}

/// The cookie set by one Set-Cookie line.
pub fn parse_set_cookie(line: &[u8]) -> (r: Option<(Vec<u8>, Vec<u8>)>)
    ensures
        r is None <==> cookie_of(line@) is None,
        r is Some ==> cookie_of(line@) == Some(((r->0).0@, (r->0).1@)),
{
    let e = find_byte(line, 61);
    if e >= line.len() {
        return None;
    }
    let s = find_byte_from(line, e + 1, 59);
    if s >= line.len() {
        return None;
    }
    Some((slice_to_vec(line, 0, e), slice_to_vec(line, e + 1, s)))
}

/// Applies every Set-Cookie line of `response` to the jar, in order.
pub fn update_cookies(cookies: &mut FieldMap, response: &Response)
    requires
        old(cookies).wf(),
    ensures
        final(cookies).wf(),
        final(cookies).map() == apply_cookies(old(cookies).map(), byte_seqs(response.set_cookies@)),
{
    let ghost ls = byte_seqs(response.set_cookies@);
    let mut i: usize = 0;
    while i < response.set_cookies.len()
        invariant
            i <= ls.len(),
            ls == byte_seqs(response.set_cookies@),
            cookies.wf(),
            cookies.map() == apply_cookies(old(cookies).map(), ls.take(i as int)),
        decreases response.set_cookies.len() - i,
    {
        assert(ls.take(i + 1).drop_last() == ls.take(i as int));
        assert(ls.take(i + 1).last() == response.set_cookies@[i as int]@);
        match parse_set_cookie(response.set_cookies[i].as_slice()) {
            Some((name, value)) => {
                cookies.insert(name, value);
            },
            None => {},
        }
        i = i + 1;
    }
    assert(ls.take(ls.len() as int) == ls);
}

/// The jar as the value of a Cookie header.
pub fn send_cookies(cookies: &FieldMap) -> (r: Vec<u8>)
    ensures
        r@ == render(cookies.pairs()),
{
    let ghost s = cookies.pairs();
    let mut out: Vec<u8> = Vec::new();
    let mut i: usize = 0;
    let eq: [u8; 1] = [61];
    while i < cookies.entries.len()
        invariant
            i <= s.len(),
            s == cookies.pairs(),
            s.len() == cookies.entries@.len(),
            eq@ == seq![61u8],
            out@ == render(s.take(i as int)),
        decreases cookies.entries.len() - i,
    {
        assert(s.take(i + 1).drop_last() == s.take(i as int));
        append_bytes(&mut out, cookies.entries[i].0.as_slice());
        append_bytes(&mut out, &eq);
        append_bytes(&mut out, cookies.entries[i].1.as_slice());
        append_bytes(&mut out, cookie_sep_bytes().as_slice());
        i = i + 1;
    }
    assert(s.take(s.len() as int) == s);
    out
}

/// The request for the page that serves the login form.
pub fn entry_request(host: Vec<u8>) -> (r: Request)
    ensures
        r.method@ == get(),
        r.uri@ == login_entry_path(),
        r.host@ == host@,
        r.headers.wf(),
        r.headers.pairs() == seq![(connection(), keep_alive())],
        r.body@.len() == 0,
{
    let mut headers = FieldMap::new();
    headers.insert(connection_bytes(), keep_alive_bytes());
    Request { method: get_bytes(), uri: login_entry_path_bytes(), host, headers, body: Vec::new() }
}

/// The login form post, carrying the jar's cookies.
pub fn login_request(
    host: Vec<u8>,
    cookies: &FieldMap,
    username: &[u8],
    password: &[u8],
    token: &[u8],
) -> (r: Request)
    ensures
        r.method@ == post(),
        r.uri@ == login_path(),
        r.host@ == host@,
        r.headers.wf(),
        r.headers.pairs() == seq![
            (connection(), keep_alive()),
            (cookie(), render(cookies.pairs())),
            (content_type(), form_type()),
        ],
        r.body@ == login_form(username@, password@, token@),
{
    let mut headers = FieldMap::new();
    headers.insert(connection_bytes(), keep_alive_bytes());
    assert(connection() != cookie());
    headers.insert(cookie_bytes(), send_cookies(cookies));
    assert(connection() != content_type());
    assert(cookie() != content_type());
    headers.insert(content_type_bytes(), form_type_bytes());
    let mut body: Vec<u8> = Vec::new();
    append_bytes(&mut body, form_username_bytes().as_slice());
    append_bytes(&mut body, username);
    append_bytes(&mut body, form_password_bytes().as_slice());
    append_bytes(&mut body, password);
    append_bytes(&mut body, form_token_bytes().as_slice());
    append_bytes(&mut body, token);
    append_bytes(&mut body, form_next_bytes().as_slice());
    Request { method: post_bytes(), uri: login_path_bytes(), host, headers, body }
}

/// A crawl request for `target`, carrying the rendered cookies.
pub fn page_request(host: Vec<u8>, target: Vec<u8>, cookie_line: Vec<u8>) -> (r: Request)
    ensures
        r.method@ == get(),
        r.uri@ == target@,
        r.host@ == host@,
        r.headers.wf(),
        r.headers.pairs() == seq![(connection(), keep_alive()), (cookie(), cookie_line@)],
        r.body@.len() == 0,
{
    let mut headers = FieldMap::new();
    headers.insert(connection_bytes(), keep_alive_bytes());
    assert(connection() != cookie());
    headers.insert(cookie_bytes(), cookie_line);
    Request { method: get_bytes(), uri: target, host, headers, body: Vec::new() }
}

/// The login failed: its response did not carry status 302.
#[derive(Debug, PartialEq, Eq, Structural)]
pub struct LoginFailed;

/// The login succeeded exactly when its response has status 302.
pub fn check_login(response: &Response) -> (r: Result<(), LoginFailed>)
    ensures
        r is Ok <==> response.status@ == status_302(),
{
    if bytes_eq(response.status.as_slice(), status_302_bytes().as_slice()) {
        Ok(())
    } else {
        Err(LoginFailed)
    }
}

/// Rendering distributes over concatenation.
pub proof fn lemma_render_concat(a: Seq<(Seq<u8>, Seq<u8>)>, b: Seq<(Seq<u8>, Seq<u8>)>)
    ensures
        render(a + b) == render(a) + render(b),
    decreases b.len(),
{
    if b.len() > 0 {
        lemma_render_concat(a, b.drop_last());
        assert((a + b).drop_last() == a + b.drop_last());
    } else {
        assert(a + b == a);
    }
}

/// With unique names, the mapped value of a name is carried by one of the pairs.
pub proof fn lemma_pair_of_key(s: Seq<(Seq<u8>, Seq<u8>)>, k: Seq<u8>) -> (j: int)
    requires
        names_unique(s),
        pairs_map(s).contains_key(k),
    ensures
        0 <= j < s.len(),
        s[j] == (k, pairs_map(s)[k]),
    decreases s.len(),
{
    if s.last().0 == k {
        s.len() - 1
    } else {
        let p = s.drop_last();
        assert(names_unique(p));
        let j = lemma_pair_of_key(p, k);
        assert(s[j] == p[j]);
        j
    }
}

/// After Set-Cookie lines are applied, the last of which sets `name` to
/// `value`, the rendered jar holds `name=value; `.
pub proof fn lemma_set_cookie_rendered(
    before: Map<Seq<u8>, Seq<u8>>,
    ls: Seq<Seq<u8>>,
    cookies: FieldMap,
    name: Seq<u8>,
    value: Seq<u8>,
)
    requires
        cookies.wf(),
        cookies.map() == apply_cookies(before, ls),
        ls.len() > 0,
        cookie_of(ls.last()) == Some((name, value)),
    ensures
        exists|i: int|
            0 <= i && i + name.len() + value.len() + 3 <= render(cookies.pairs()).len()
                && #[trigger] render(cookies.pairs()).subrange(i, i + name.len() + value.len() + 3)
                == name + seq![61u8] + value + cookie_sep(),
{
    let s = cookies.pairs();
    assert(cookies.map().contains_key(name) && cookies.map()[name] == value);
    let j = lemma_pair_of_key(s, name);
    let a = s.take(j + 1);
    let b = s.skip(j + 1);
    assert(s == a + b);
    lemma_render_concat(a, b);
    assert(a.drop_last() == s.take(j));
    let seg = name + seq![61u8] + value + cookie_sep();
    let i = render(s.take(j)).len() as int;
    assert(render(a) == render(s.take(j)) + seg);
    assert(render(s) == render(s.take(j)) + seg + render(b));
    assert(seg.len() == name.len() + value.len() + 3);
    assert(render(s).subrange(i, i + seg.len()) == seg);
    assert(i + seg.len() <= render(s).len());
    assert(render(cookies.pairs()).subrange(i, i + name.len() + value.len() + 3) == seg);
}

} // verus!
