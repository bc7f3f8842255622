//! The message codec: request encoding and line-oriented response decoding.
use vstd::prelude::*;
use crate::text::{
    append_bytes, byte_seqs, bytes_eq, decimal, find_byte, find_byte_from, first_index, lemma_first_index,
    slice_to_vec, trim_byte, trim_byte_vec,
};
use crate::words::{
    accept_line, accept_line_bytes, colon_sp, colon_sp_bytes, content_length_prefix,
    content_length_prefix_bytes, host_prefix, host_prefix_bytes, nl, nl_bytes, sp, sp_bytes,
    version_line, version_line_bytes, status_500, status_500_bytes, set_cookie, set_cookie_bytes,
    transfer_encoding, transfer_encoding_bytes, chunked, chunked_bytes,
};
use crate::fields::{FieldMap, pairs_map};

verus! {

/// Header lines `name: value\n`, one per pair, in order.
pub open spec fn header_lines(s: Seq<(Seq<u8>, Seq<u8>)>) -> Seq<u8>
    decreases s.len(),
{
    if s.len() == 0 {
        Seq::empty()
    } else {
        header_lines(s.drop_last()) + s.last().0 + colon_sp() + s.last().1 + nl()
    }
}

/// The Content-Length line owed to a body of `n` bytes: none for an empty body.
pub open spec fn content_length_line(n: nat) -> Seq<u8> {
    if n == 0 {
        Seq::empty()
    } else {
        content_length_prefix() + decimal(n) + nl()
    }
}

/// The wire form of a request.
pub open spec fn encoding(
    method: Seq<u8>,
    uri: Seq<u8>,
    host: Seq<u8>,
    headers: Seq<(Seq<u8>, Seq<u8>)>,
    body: Seq<u8>,
) -> Seq<u8> {
    method + sp() + uri + sp() + version_line() + host_prefix() + host + nl() + header_lines(headers)
        + content_length_line(body.len()) + accept_line() + nl() + body
}

/// Decimal digits of `n`.
pub fn decimal_bytes(n: usize) -> (r: Vec<u8>)
    ensures
        r@ == decimal(n as nat),
    decreases n,
{
    if n < 10 {
        let mut r: Vec<u8> = Vec::new();
        r.push((48 + n) as u8);
        assert(r@ == seq![(48 + n) as u8]);
        r
    } else {
        let mut r = decimal_bytes(n / 10);
        r.push((48 + n % 10) as u8);
        r
    }
}

/// An outgoing request.
pub struct Request {
    pub method: Vec<u8>,
    pub uri: Vec<u8>,
    pub host: Vec<u8>,
    pub headers: FieldMap,
    pub body: Vec<u8>,
}

impl Request {
    /// The request line, the Host line, the caller's headers, a Content-Length
    /// line for a non-empty body, the fixed Accept line, a blank line, then the body.
    pub fn encode(&self) -> (r: Vec<u8>)
        ensures
            r@ == encoding(self.method@, self.uri@, self.host@, self.headers.pairs(), self.body@),
    {
        let mut out: Vec<u8> = Vec::new();
        append_bytes(&mut out, self.method.as_slice());
        append_bytes(&mut out, sp_bytes().as_slice());
        append_bytes(&mut out, self.uri.as_slice());
        append_bytes(&mut out, sp_bytes().as_slice());
        append_bytes(&mut out, version_line_bytes().as_slice());
        append_bytes(&mut out, host_prefix_bytes().as_slice());
        append_bytes(&mut out, self.host.as_slice());
        append_bytes(&mut out, nl_bytes().as_slice());
        let ghost start = out@;
        let ghost s = self.headers.pairs();
        let mut i: usize = 0;
        while i < self.headers.entries.len()
            invariant
                i <= s.len(),
                s == self.headers.pairs(),
                s.len() == self.headers.entries@.len(),
                out@ == start + header_lines(s.take(i as int)),
            decreases self.headers.entries.len() - i,
        {
            assert(s.take(i + 1).drop_last() == s.take(i as int));
            append_bytes(&mut out, self.headers.entries[i].0.as_slice());
            append_bytes(&mut out, colon_sp_bytes().as_slice());
            append_bytes(&mut out, self.headers.entries[i].1.as_slice());
            append_bytes(&mut out, nl_bytes().as_slice());
            i = i + 1;
        }
        assert(s.take(s.len() as int) == s);
        if self.body.len() != 0 {
            append_bytes(&mut out, content_length_prefix_bytes().as_slice());
            append_bytes(&mut out, decimal_bytes(self.body.len()).as_slice());
            append_bytes(&mut out, nl_bytes().as_slice());
        }
        append_bytes(&mut out, accept_line_bytes().as_slice());
        append_bytes(&mut out, nl_bytes().as_slice());
        append_bytes(&mut out, self.body.as_slice());
        assert(out@ =~= encoding(self.method@, self.uri@, self.host@, s, self.body@));
        out
    }
}

/// `l` without one trailing carriage return.
pub open spec fn strip_cr(l: Seq<u8>) -> Seq<u8> {
    if l.len() > 0 && l.last() == 13 {
        l.drop_last()
    } else {
        l
    }
}

/// The lines of `s`: split at each line feed, a carriage return before the
/// line feed dropped; a final line feed ends the last line and opens no new one.
pub open spec fn lines(s: Seq<u8>) -> Seq<Seq<u8>>
    decreases s.len(),
{
    if s.len() == 0 {
        Seq::empty()
    } else {
        let i = first_index(s, 10);
        if 0 <= i < s.len() {
            seq![strip_cr(s.take(i))] + lines(s.skip(i + 1))
        } else {
            seq![s]
        }
    }
}

/// The status code of a status line: the three bytes after the first space,
/// or `500` when there is no space or fewer than three bytes follow it.
pub open spec fn status_of(line: Seq<u8>) -> Seq<u8> {
    let loc = first_index(line, 32);
    if 0 <= loc && loc + 4 <= line.len() {
        line.subrange(loc + 1, loc + 4)
    } else {
        status_500()
    }
}

/// The status of the decoded response: `500` when no status line was seen.
pub open spec fn decoded_status(v: DecodeView) -> Seq<u8> {
    if v.started {
        v.status
    } else {
        status_500()
    }
}

/// The value part of a header line whose first colon is at `c`: what follows
/// the colon and the one separator byte after it.
pub open spec fn header_value(line: Seq<u8>, c: int) -> Seq<u8> {
    if c + 2 <= line.len() {
        line.skip(c + 2)
    } else {
        Seq::empty()
    }
}

/// What the decoder has gathered so far.
pub struct DecodeView {
    pub status: Seq<u8>,
    pub headers: Seq<(Seq<u8>, Seq<u8>)>,
    pub cookies: Seq<Seq<u8>>,
    pub body: Seq<u8>,
    pub started: bool,
    pub header_ended: bool,
    pub chunked: bool,
    pub flip: bool,
    pub end_found: bool,
}

/// The state before any line.
pub open spec fn initial_view() -> DecodeView {
    DecodeView {
        status: Seq::empty(),
        headers: Seq::empty(),
        cookies: Seq::empty(),
        body: Seq::empty(),
        started: false,
        header_ended: false,
        chunked: false,
        flip: false,
        end_found: false,
    }
}

/// The headers announce a chunked body.
pub open spec fn announces_chunked(headers: Seq<(Seq<u8>, Seq<u8>)>) -> bool {
    pairs_map(headers).contains_key(transfer_encoding()) && pairs_map(headers)[transfer_encoding()]
        == chunked()
}

/// The effect of one line on the decoder.
pub open spec fn step(v: DecodeView, line: Seq<u8>) -> DecodeView {
    if v.end_found {
        v
    } else if !v.started {
        DecodeView { started: true, status: status_of(line), ..v }
    } else if v.header_ended {
        if !v.chunked {
            DecodeView { body: v.body + trim_byte(line, 0), ..v }
        } else if v.flip {
            DecodeView { body: v.body + trim_byte(line, 0), flip: false, ..v }
        } else if line.len() == 0 || line[0] == 48 {
            DecodeView { end_found: true, ..v }
        } else {
            DecodeView { flip: true, ..v }
        }
    } else if line.len() == 0 {
        DecodeView { header_ended: true, chunked: announces_chunked(v.headers), ..v }
    } else {
        let c = first_index(line, 58);
        if c >= line.len() {
            v
        } else if line.take(c) == set_cookie() {
            DecodeView { cookies: v.cookies.push(header_value(line, c)), ..v }
        } else {
            DecodeView { headers: v.headers.push((line.take(c), header_value(line, c))), ..v }
        }
    }
}

/// The effect of a sequence of lines, in order.
pub open spec fn run(v: DecodeView, ls: Seq<Seq<u8>>) -> DecodeView
    decreases ls.len(),
{
    if ls.len() == 0 {
        v
    } else {
        run(step(v, ls[0]), ls.drop_first())
    }
}

/// A decoded response.
pub struct Response {
    pub status: Vec<u8>,
    pub headers: FieldMap,
    pub set_cookies: Vec<Vec<u8>>,
    pub body: Vec<u8>,
}

/// An incremental response decoder: the first buffer holds the status line
/// and the headers; a chunked body whose terminator has not been seen is
/// completed by feeding further buffers.
pub struct Decoder {
    response: Response,
    started: bool,
    header_ended: bool,
    chunked: bool,
    flip: bool,
    end_found: bool,
}

impl Decoder {
    pub closed spec fn view(&self) -> DecodeView {
        DecodeView {
            status: self.response.status@,
            headers: self.response.headers.pairs(),
            cookies: byte_seqs(self.response.set_cookies@),
            body: self.response.body@,
            started: self.started,
            header_ended: self.header_ended,
            chunked: self.chunked,
            flip: self.flip,
            end_found: self.end_found,
        }
    }

    /// A status, once read, is three bytes long.
    pub open spec fn wf(&self) -> bool {
        self.view().started ==> self.view().status.len() == 3
    }

    /// Starts decoding with the first buffer received.
    pub fn new(input: &[u8]) -> (r: Decoder)
        ensures
            r.wf(),
            r.view() == run(initial_view(), lines(input@)),
    {
        let mut d = Decoder {
            response: Response {
                status: Vec::new(),
                headers: FieldMap::new(),
                set_cookies: Vec::new(),
                body: Vec::new(),
            },
            started: false,
            header_ended: false,
            chunked: false,
            flip: false,
            end_found: false,
        };
        assert(byte_seqs(d.response.set_cookies@) =~= Seq::<Seq<u8>>::empty());
        assert(d.view() == initial_view());
        d.feed(input);
        d
    }

    /// The body is chunked and its terminator has not been seen yet.
    pub fn needs_more(&self) -> (r: bool)
        ensures
            r == (self.view().chunked && !self.view().end_found),
    {
        self.chunked && !self.end_found
    }

    /// Scans the lines of a further buffer.
    pub fn feed(&mut self, input: &[u8])
        requires
            old(self).wf(),
        ensures
            final(self).wf(),
            final(self).view() == run(old(self).view(), lines(input@)),
    {
        let ghost s = input@;
        let mut pos: usize = 0;
        assert(s.skip(0) == s);
        while pos < input.len()
            invariant
                pos <= s.len(),
                s == input@,
                run(old(self).view(), lines(s)) == run(self.view(), lines(s.skip(pos as int))),
                self.wf(),
            decreases input.len() - pos,
        {
            let ghost t = s.skip(pos as int);
            let end = find_byte_from(input, pos, 10);
            let ghost i = first_index(t, 10);
            proof {
                lemma_first_index(t, 10);
            }
            if end < input.len() {
                let mut line = slice_to_vec(input, pos, end);
                assert(line@ == t.take(i));
                if line.len() > 0 && line[line.len() - 1] == 13 {
                    line.pop();
                }
                assert(line@ == strip_cr(t.take(i)));
                assert(t.skip(i + 1) == s.skip(end + 1));
                assert(lines(t) == seq![line@] + lines(s.skip(end + 1)));
                assert((seq![line@] + lines(s.skip(end + 1))).drop_first() == lines(s.skip(end + 1)));
                self.step(&line);
                pos = end + 1;
            } else {
                let line = slice_to_vec(input, pos, end);
                assert(line@ == t);
                assert(lines(t) == seq![line@]);
                assert(seq![line@].drop_first() == Seq::<Seq<u8>>::empty());
                assert(s.skip(input.len() as int) == Seq::<u8>::empty());
                self.step(&line);
                pos = end;
            }
        }
        assert(s.skip(pos as int) == Seq::<u8>::empty());
    }

    /// Applies one line.
    fn step(&mut self, line: &Vec<u8>)
        requires
            old(self).wf(),
        ensures
            final(self).wf(),
            final(self).view() == step(old(self).view(), line@),
    {
        if self.end_found {
            return;
        }
        if !self.started {
            self.started = true;
            self.response.status = status_code(line.as_slice());
            return;
        }
        if self.header_ended {
            if !self.chunked {
                append_bytes(&mut self.response.body, trim_byte_vec(line.as_slice(), 0).as_slice());
            } else if self.flip {
                append_bytes(&mut self.response.body, trim_byte_vec(line.as_slice(), 0).as_slice());
                self.flip = false;
            } else if line.len() == 0 || line[0] == 48 {
                self.end_found = true;
            } else {
                self.flip = true;
            }
            return;
        }
        if line.len() == 0 {
            self.header_ended = true;
            let te = transfer_encoding_bytes();
            let ch = chunked_bytes();
            self.chunked = match self.response.headers.get(te.as_slice()) {
                Some(v) => bytes_eq(v.as_slice(), ch.as_slice()),
                None => false,
            };
            return;
        }
        let c = find_byte(line.as_slice(), 58);
        if c >= line.len() {
            return;
        }
        let name = slice_to_vec(line.as_slice(), 0, c);
        let value = if line.len() - c >= 2 {
            slice_to_vec(line.as_slice(), c + 2, line.len())
        } else {
            Vec::new()
        };
        assert(value@ == header_value(line@, c as int));
        let sc = set_cookie_bytes();
        if bytes_eq(name.as_slice(), sc.as_slice()) {
            let ghost old_cookies = self.response.set_cookies@;
            self.response.set_cookies.push(value);
            assert(byte_seqs(self.response.set_cookies@) =~= byte_seqs(old_cookies).push(
                header_value(line@, c as int),
            ));
        } else {
            self.response.headers.push(name, value);
        }
    }

    /// The response: the body loses any NUL padding at either end.
    pub fn finish(self) -> (r: Response)
        requires
            self.wf(),
        ensures
            r.status@ == decoded_status(self.view()),
            r.status@.len() == 3,
            r.headers.pairs() == self.view().headers,
            byte_seqs(r.set_cookies@) == self.view().cookies,
            r.body@ == trim_byte(self.view().body, 0),
    {
        let body = trim_byte_vec(self.response.body.as_slice(), 0);
        if !self.started {
            return Response { status: status_500_bytes(), body, ..self.response };
        }
        Response { body, ..self.response }
    }
}

/// The status code of a status line.
pub fn status_code(line: &[u8]) -> (r: Vec<u8>)
    ensures
        r@ == status_of(line@),
{
    let loc = find_byte(line, 32);
    if loc >= line.len() {
        status_500_bytes()
    } else if line.len() - loc >= 4 {
        slice_to_vec(line, loc + 1, loc + 4)
    } else {
        status_500_bytes()
    }
}

impl Response {
    /// Decodes a response whose bytes are all in `input`, reading nothing more.
    pub fn decode(input: &[u8]) -> (r: Response)
        ensures
            r.status@ == decoded_status(run(initial_view(), lines(input@))),
            r.status@.len() == 3,
            r.headers.pairs() == run(initial_view(), lines(input@)).headers,
            byte_seqs(r.set_cookies@) == run(initial_view(), lines(input@)).cookies,
            r.body@ == trim_byte(run(initial_view(), lines(input@)).body, 0),
    {
        Decoder::new(input).finish()
    }
}

/// A first line followed by a line feed is the first of the lines.
pub proof fn lemma_lines_first(l: Seq<u8>, rest: Seq<u8>)
    requires
        forall|i: int| 0 <= i < l.len() ==> l[i] != 10,
    ensures
        lines(l + seq![10u8] + rest) == seq![strip_cr(l)] + lines(rest),
{
    let s = l + seq![10u8] + rest;
    lemma_first_index(s, 10);
    assert(s[l.len() as int] == 10);
    let fi = first_index(s, 10);
    if fi < l.len() {
        assert(s[fi] == l[fi]);
    }
    assert(fi == l.len());
    assert(s.take(fi) == l);
    assert(s.skip(fi + 1) == rest);
}

/// Once the status line is read, no later line changes the status.
pub proof fn lemma_status_kept(v: DecodeView, ls: Seq<Seq<u8>>)
    requires
        v.started,
    ensures
        run(v, ls).status == v.status,
    decreases ls.len(),
{
    if ls.len() > 0 {
        lemma_status_kept(step(v, ls[0]), ls.drop_first());
    }
}

/// The status of a decoded response comes from its first line alone, whatever
/// follows; a first line without a space gives `500`, and decoding goes on.
pub proof fn lemma_status_from_first_line(l: Seq<u8>, rest: Seq<u8>)
    requires
        forall|i: int| 0 <= i < l.len() ==> l[i] != 10,
    ensures
        run(initial_view(), lines(l + seq![10u8] + rest)).status == status_of(strip_cr(l)),
        first_index(strip_cr(l), 32) >= strip_cr(l).len() ==> run(
            initial_view(),
            lines(l + seq![10u8] + rest),
        ).status == status_500(),
{
    lemma_lines_first(l, rest);
    let ls = lines(l + seq![10u8] + rest);
    assert(ls[0] == strip_cr(l));
    assert(ls.drop_first() == lines(rest));
    lemma_status_kept(step(initial_view(), strip_cr(l)), lines(rest));
}

} // verus!
