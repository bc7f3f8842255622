//! The crawl engine: a breadth-first frontier, the visited set and the results,
//! moved along by status-driven transitions. The caller performs each request
//! and hands the decoded response and its parsed document back.
use vstd::prelude::*;
use std::collections::VecDeque;
use crate::codec::{Request, Response};
use crate::fields::FieldMap;
use crate::session::{apply_cookies, page_request, render, send_cookies, update_cookies};
use crate::html::{find_flags, find_links, links_in, marked_in, Node};
use crate::text::{byte_seqs, bytes_eq};
use crate::words::{
    close, close_bytes, connection, connection_bytes, cookie, get, keep_alive, location, location_bytes, marker_class,
    marker_class_bytes, status_301, status_301_bytes, status_403, status_403_bytes, status_404,
    status_404_bytes, status_500, status_500_bytes,
};

verus! {

/// How a response to a target is handled.
#[derive(Debug, Clone, Copy, PartialEq, Eq, Structural)]
pub enum Outcome {
    /// Server error: the target goes back to the frontier's tail.
    Retry,
    /// Not found or forbidden: the target is dropped.
    Skipped,
    /// Moved: the target is dropped and the new location queued.
    Redirected,
    /// Any other status: the page is read for results and links.
    Accepted,
}

/// What the caller does after a response.
#[derive(Debug, Clone, Copy, PartialEq, Eq, Structural)]
pub struct Step {
    pub outcome: Outcome,
    /// The server closed the connection: open a new one before the next request.
    pub reconnect: bool,
}

/// A failure that ends the crawl.
#[derive(Debug, Clone, Copy, PartialEq, Eq, Structural)]
pub enum CrawlError {
    /// A 301 response carried no Location header.
    MissingLocation,
}

/// The handling owed to a status code.
pub open spec fn classify(status: Seq<u8>) -> Outcome {
    if status == status_500() {
        Outcome::Retry
    } else if status == status_404() || status == status_403() {
        Outcome::Skipped
    } else if status == status_301() {
        Outcome::Redirected
    } else {
        Outcome::Accepted
    }
}

/// The state of a crawl.
pub struct CrawlView {
    pub frontier: Seq<Seq<u8>>,
    pub visited: Seq<Seq<u8>>,
    pub results: Seq<Seq<u8>>,
    pub target: nat,
}

/// The crawl stops once enough results are in or nothing is left to fetch.
pub open spec fn finished(v: CrawlView) -> bool {
    v.results.len() >= v.target || v.frontier.len() == 0
}

/// `links` without those in `visited`, in order.
pub open spec fn unvisited(links: Seq<Seq<u8>>, visited: Seq<Seq<u8>>) -> Seq<Seq<u8>>
    decreases links.len(),
{
    if links.len() == 0 {
        Seq::empty()
    } else if visited.contains(links.last()) {
        unvisited(links.drop_last(), visited)
    } else {
        unvisited(links.drop_last(), visited).push(links.last())
    }
}

/// The results with `marker` added, unless it is absent or already there.
pub open spec fn add_result(results: Seq<Seq<u8>>, marker: Option<Seq<u8>>) -> Seq<Seq<u8>> {
    match marker {
        Some(m) => if results.contains(m) {
            results
        } else {
            results.push(m)
        },
        None => results,
    }
}

/// The state after taking the next target.
pub open spec fn pop_target(v: CrawlView) -> CrawlView {
    if finished(v) {
        v
    } else {
        CrawlView { frontier: v.frontier.drop_first(), ..v }
    }
}

/// The state after a response to `target`.
pub open spec fn transition(
    v: CrawlView,
    target: Seq<u8>,
    status: Seq<u8>,
    location: Option<Seq<u8>>,
    links: Seq<Seq<u8>>,
    marker: Option<Seq<u8>>,
) -> CrawlView {
    let vis = v.visited.push(target);
    match classify(status) {
        Outcome::Retry => CrawlView { frontier: v.frontier.push(target), ..v },
        Outcome::Skipped => CrawlView { visited: vis, ..v },
        Outcome::Redirected => CrawlView {
            visited: vis,
            frontier: match location {
                Some(l) => if vis.contains(l) {
                    v.frontier
                } else {
                    v.frontier.push(l)
                },
                None => v.frontier,
            },
            ..v
        },
        Outcome::Accepted => CrawlView {
            visited: vis,
            results: add_result(v.results, marker),
            frontier: v.frontier + unvisited(links, vis),
            ..v
        },
    }
}

/// Whether `x` is among the byte strings of `v`.
fn contains(v: &Vec<Vec<u8>>, x: &[u8]) -> (r: bool)
    ensures
        r == byte_seqs(v@).contains(x@),
{
    let ghost s = byte_seqs(v@);
    let mut i: usize = 0;
    while i < v.len()
        invariant
            i <= v@.len(),
            s == byte_seqs(v@),
            forall|j: int| 0 <= j < i ==> s[j] != x@,
        decreases v.len() - i,
    {
        if bytes_eq(v[i].as_slice(), x) {
            assert(s[i as int] == x@);
            return true;
        }
        i = i + 1;
    }
    false
}

/// A crawl in progress.
pub struct Crawler {
    frontier: VecDeque<Vec<u8>>,
    cookies: FieldMap,
    visited: Vec<Vec<u8>>,
    results: Vec<Vec<u8>>,
    target: usize,
}

impl Crawler {
    pub closed spec fn view(&self) -> CrawlView {
        CrawlView {
            frontier: byte_seqs(self.frontier@),
            visited: byte_seqs(self.visited@),
            results: byte_seqs(self.results@),
            target: self.target as nat,
        }
    }

    /// The session's cookies, in the jar's order.
    pub closed spec fn jar_pairs(&self) -> Seq<(Seq<u8>, Seq<u8>)> {
        self.cookies.pairs()
    }

    /// The session's cookies as a mapping.
    pub closed spec fn jar(&self) -> Map<Seq<u8>, Seq<u8>> {
        self.cookies.map()
    }

    /// The results hold no duplicates and the jar's names are unique.
    pub closed spec fn wf(&self) -> bool {
        self.view().results.no_duplicates() && self.cookies.wf()
    }

    /// A crawl that starts at `start`, wants `target` results and carries
    /// the session's cookie jar.
    pub fn new(start: Vec<u8>, target: usize, cookies: FieldMap) -> (r: Crawler)
        requires
            cookies.wf(),
        ensures
            r.wf(),
            r.jar_pairs() == cookies.pairs(),
            r.view().frontier == seq![start@],
            r.view().visited == Seq::<Seq<u8>>::empty(),
            r.view().results == Seq::<Seq<u8>>::empty(),
            r.view().target == target,
    {
        let ghost s = start@;
        let mut frontier: VecDeque<Vec<u8>> = VecDeque::new();
        frontier.push_back(start);
        let r = Crawler { frontier, cookies, visited: Vec::new(), results: Vec::new(), target };
        assert(r.view().frontier =~= seq![s]);
        assert(r.view().visited =~= Seq::<Seq<u8>>::empty());
        assert(r.view().results =~= Seq::<Seq<u8>>::empty());
        r
    }

    /// The crawl is over.
    pub fn is_done(&self) -> (r: bool)
        ensures
            r == finished(self.view()),
    {
        self.results.len() >= self.target || self.frontier.len() == 0
    }

    /// The results found so far, in the order found.
    pub fn results(&self) -> (r: &Vec<Vec<u8>>)
        ensures
            byte_seqs(r@) == self.view().results,
    {
        &self.results
    }

    /// The number of targets waiting.
    pub fn frontier_len(&self) -> (r: usize)
        ensures
            r == self.view().frontier.len(),
    {
        self.frontier.len()
    }

    /// Takes the target at the frontier's head, unless the crawl is over.
    pub fn next_target(&mut self) -> (r: Option<Vec<u8>>)
        requires
            old(self).wf(),
        ensures
            final(self).wf(),
            final(self).view() == pop_target(old(self).view()),
            r is None <==> finished(old(self).view()),
            r is Some ==> r->0@ == old(self).view().frontier[0],
    {
        if self.is_done() {
            return None;
        }
        let ghost f = self.view().frontier;
        let t = self.frontier.pop_front();
        assert(self.view().frontier =~= f.drop_first());
        t
    }

    /// The request for `target`, carrying the jar's current cookies.
    pub fn request_for(&self, host: Vec<u8>, target: Vec<u8>) -> (r: Request)
        ensures
            r.method@ == get(),
            r.uri@ == target@,
            r.host@ == host@,
            r.headers.wf(),
            r.headers.pairs() == seq![(connection(), keep_alive()), (cookie(), render(self.jar_pairs()))],
            r.body@.len() == 0,
    {
        page_request(host, target, send_cookies(&self.cookies))
    }

    /// Applies the response to `target` and the document parsed from its body.
    pub fn on_response(&mut self, target: Vec<u8>, response: &Response, doc: &Node) -> (r: Result<
        Step,
        CrawlError,
    >)
        requires
            old(self).wf(),
        ensures
            final(self).wf(),
            r is Err <==> (classify(response.status@) == Outcome::Redirected
                && !response.headers.map().contains_key(location())),
            final(self).jar() == apply_cookies(old(self).jar(), byte_seqs(response.set_cookies@)),
            r is Err ==> final(self).view() == old(self).view(),
            r is Ok ==> (r->Ok_0).outcome == classify(response.status@),
            r is Ok ==> (r->Ok_0).reconnect == ((classify(response.status@) == Outcome::Retry
                || classify(response.status@) == Outcome::Accepted)
                && response.headers.map().contains_key(connection())
                && response.headers.map()[connection()] == close()),
            r is Ok ==> final(self).view() == transition(
                old(self).view(),
                target@,
                response.status@,
                if response.headers.map().contains_key(location()) {
                    Some(response.headers.map()[location()])
                } else {
                    None
                },
                links_in(*doc),
                marked_in(*doc, marker_class(), false),
            ),
    {
        update_cookies(&mut self.cookies, response);
        let ghost v = self.view();
        let ghost t = target@;
        let status = response.status.as_slice();
        let closing = match response.headers.get(connection_bytes().as_slice()) {
            Some(c) => bytes_eq(c.as_slice(), close_bytes().as_slice()),
            None => false,
        };
        if bytes_eq(status, status_500_bytes().as_slice()) {
            self.frontier.push_back(target);
            assert(self.view().frontier =~= v.frontier.push(t));
            return Ok(Step { outcome: Outcome::Retry, reconnect: closing });
        }
        if bytes_eq(status, status_404_bytes().as_slice()) || bytes_eq(
            status,
            status_403_bytes().as_slice(),
        ) {
            self.visited.push(target);
            assert(self.view().visited =~= v.visited.push(t));
            return Ok(Step { outcome: Outcome::Skipped, reconnect: false });
        }
        if bytes_eq(status, status_301_bytes().as_slice()) {
            let loc = match response.headers.get(location_bytes().as_slice()) {
                Some(l) => l,
                None => {
                    return Err(CrawlError::MissingLocation);
                },
            };
            self.visited.push(target);
            assert(self.view().visited =~= v.visited.push(t));
            if !contains(&self.visited, loc.as_slice()) {
                let copy = crate::text::slice_to_vec(loc.as_slice(), 0, loc.len());
                assert(copy@ == loc@);
                self.frontier.push_back(copy);
                assert(self.view().frontier =~= v.frontier.push(loc@));
            }
            return Ok(Step { outcome: Outcome::Redirected, reconnect: false });
        }
        self.visited.push(target);
        assert(self.view().visited =~= v.visited.push(t));
        let ghost vis = self.view().visited;
        match find_flags(doc, marker_class_bytes().as_slice(), false) {
            Some(m) => {
                if !contains(&self.results, m.as_slice()) {
                    let ghost m_view = m@;
                    self.results.push(m);
                    assert(self.view().results =~= v.results.push(m_view));
                }
            },
            None => {},
        }
        assert(self.view().results == add_result(v.results, marked_in(*doc, marker_class(), false)));
        let links = find_links(doc);
        let ghost ls = byte_seqs(links@);
        let mut i: usize = 0;
        while i < links.len()
            invariant
                i <= links@.len(),
                ls == byte_seqs(links@),
                self.view().visited == vis,
                self.view().results == add_result(v.results, marked_in(*doc, marker_class(), false)),
                self.view().results.no_duplicates(),
                self.view().target == v.target,
                self.view().frontier == v.frontier + unvisited(ls.take(i as int), vis),
                self.cookies.wf(),
                self.jar() == apply_cookies(old(self).jar(), byte_seqs(response.set_cookies@)),
            decreases links.len() - i,
        {
            assert(ls.take(i + 1).drop_last() == ls.take(i as int));
            if !contains(&self.visited, links[i].as_slice()) {
                let ghost f = self.view().frontier;
                let copy = crate::text::slice_to_vec(links[i].as_slice(), 0, links[i].len());
                assert(copy@ == ls[i as int]);
                self.frontier.push_back(copy);
                assert(self.view().frontier =~= f.push(ls[i as int]));
            }
            i = i + 1;
        }
        assert(ls.take(ls.len() as int) == ls);
        Ok(Step { outcome: Outcome::Accepted, reconnect: closing })
    }
}

/// Nothing that `unvisited` keeps is in `visited`.
pub proof fn lemma_unvisited_excludes(links: Seq<Seq<u8>>, visited: Seq<Seq<u8>>, x: Seq<u8>)
    requires
        visited.contains(x),
    ensures
        !unvisited(links, visited).contains(x),
    decreases links.len(),
{
    if links.len() > 0 {
        lemma_unvisited_excludes(links.drop_last(), visited, x);
        let u = unvisited(links.drop_last(), visited);
        if !visited.contains(links.last()) {
            assert forall|i: int| 0 <= i < u.push(links.last()).len() implies u.push(links.last())[i]
                != x by {
                if i < u.len() {
                    assert(u.push(links.last())[i] == u[i]);
                }
            }
        }
    }
}

/// A response never queues a path that is visited afterwards and was not
/// queued before, unless it is the retried target itself: a path that reached
/// a terminal outcome is not fetched again through a new link or redirect.
pub proof fn lemma_visited_never_queued(
    v: CrawlView,
    target: Seq<u8>,
    status: Seq<u8>,
    location: Option<Seq<u8>>,
    links: Seq<Seq<u8>>,
    marker: Option<Seq<u8>>,
    x: Seq<u8>,
)
    requires
        !v.frontier.contains(x),
        classify(status) != Outcome::Retry,
        transition(v, target, status, location, links, marker).visited.contains(x),
    ensures
        !transition(v, target, status, location, links, marker).frontier.contains(x),
{
    let vis = v.visited.push(target);
    let w = transition(v, target, status, location, links, marker);
    if classify(status) == Outcome::Accepted {
        lemma_unvisited_excludes(links, vis, x);
        let u = unvisited(links, vis);
        assert forall|i: int| 0 <= i < w.frontier.len() implies w.frontier[i] != x by {
            if i < v.frontier.len() {
                assert(w.frontier[i] == v.frontier[i]);
            } else {
                assert(w.frontier[i] == u[i - v.frontier.len()]);
            }
        }
    } else if classify(status) == Outcome::Redirected {
        match location {
            Some(l) => {
                if !vis.contains(l) {
                    assert forall|i: int| 0 <= i < w.frontier.len() implies w.frontier[i] != x by {
                        if i < v.frontier.len() {
                            assert(w.frontier[i] == v.frontier[i]);
                        }
                    }
                }
            },
            None => {},
        }
    }
}

/// A target that redirects to itself is marked visited and not queued again:
/// the frontier is what it was once the target was taken off it.
pub proof fn lemma_self_redirect_once(
    v: CrawlView,
    links: Seq<Seq<u8>>,
    marker: Option<Seq<u8>>,
)
    requires
        !finished(v),
    ensures
        ({
            let a = v.frontier[0];
            let w = transition(pop_target(v), a, status_301(), Some(a), links, marker);
            &&& w.visited.contains(a)
            &&& w.frontier == pop_target(v).frontier
            &&& w.results == v.results
            &&& (!pop_target(v).frontier.contains(a) ==> !w.frontier.contains(a))
        }),
{
    let a = v.frontier[0];
    let vis = pop_target(v).visited.push(a);
    assert(vis[vis.len() - 1] == a);
    assert(classify(status_301()) == Outcome::Redirected);
}

/// Starting from one target, nothing visited and one result wanted: when the
/// target is accepted with exactly one marked text and no links, the crawl
/// ends with that single result and an empty frontier.
pub proof fn lemma_single_result_ends_crawl(
    a: Seq<u8>,
    status: Seq<u8>,
    location: Option<Seq<u8>>,
    m: Seq<u8>,
)
    requires
        classify(status) == Outcome::Accepted,
    ensures
        ({
            let v0 = CrawlView {
                frontier: seq![a],
                visited: Seq::empty(),
                results: Seq::empty(),
                target: 1,
            };
            let w = transition(pop_target(v0), a, status, location, Seq::empty(), Some(m));
            &&& !finished(v0)
            &&& w.results == seq![m]
            &&& w.frontier.len() == 0
            &&& finished(w)
        }),
{
    let v0 = CrawlView { frontier: seq![a], visited: Seq::empty(), results: Seq::empty(), target: 1 };
    let v1 = pop_target(v0);
    assert(v1.frontier =~= Seq::<Seq<u8>>::empty());
    let vis = v1.visited.push(a);
    assert(unvisited(Seq::empty(), vis) =~= Seq::<Seq<u8>>::empty());
    assert(!Seq::<Seq<u8>>::empty().contains(m));
    assert(Seq::<Seq<u8>>::empty().push(m) =~= seq![m]);
}

/// One round on a frontier that holds only `a`: take `a`, get status 500.
pub open spec fn retry_round(v: CrawlView, a: Seq<u8>) -> CrawlView {
    transition(pop_target(v), a, status_500(), None, Seq::empty(), None)
}

/// A lone target that gets 500 three times and then a success: each retry
/// puts the frontier back to its size before the retry and keeps the results;
/// the fourth response accepts the target and loses no result found before.
pub proof fn lemma_retry_until_accepted(
    a: Seq<u8>,
    visited: Seq<Seq<u8>>,
    results: Seq<Seq<u8>>,
    target: nat,
    status: Seq<u8>,
    location: Option<Seq<u8>>,
    links: Seq<Seq<u8>>,
    marker: Option<Seq<u8>>,
)
    requires
        results.len() < target,
        classify(status) == Outcome::Accepted,
    ensures
        ({
            let v0 = CrawlView { frontier: seq![a], visited, results, target };
            let v3 = retry_round(retry_round(retry_round(v0, a), a), a);
            let w = transition(pop_target(v3), a, status, location, links, marker);
            &&& retry_round(v0, a) == v0
            &&& v3 == v0
            &&& !finished(v3)
            &&& w.visited.contains(a)
            &&& forall|x: Seq<u8>| results.contains(x) ==> w.results.contains(x)
        }),
{
    let v0 = CrawlView { frontier: seq![a], visited, results, target };
    assert(classify(status_500()) == Outcome::Retry);
    assert(pop_target(v0).frontier.push(a) =~= seq![a]);
    assert(retry_round(v0, a) == v0);
    let vis = visited.push(a);
    assert(vis[vis.len() - 1] == a);
    let w = transition(pop_target(v0), a, status, location, links, marker);
    assert forall|x: Seq<u8>| results.contains(x) implies w.results.contains(x) by {
        let i = choose|i: int| 0 <= i < results.len() && results[i] == x;
        match marker {
            Some(m) => {
                if !results.contains(m) {
                    assert(results.push(m)[i] == x);
                }
            },
            None => {},
        }
    }
}

/// A 500 response to the target at the frontier's head puts it back at the
/// tail: the frontier keeps its size, and the visited paths and the results
/// are unchanged.
pub proof fn lemma_retry_requeues_at_tail(
    v: CrawlView,
    location: Option<Seq<u8>>,
    links: Seq<Seq<u8>>,
    marker: Option<Seq<u8>>,
)
    requires
        !finished(v),
    ensures
        ({
            let a = v.frontier[0];
            let w = transition(pop_target(v), a, status_500(), location, links, marker);
            &&& w.frontier == v.frontier.drop_first().push(a)
            &&& w.frontier.len() == v.frontier.len()
            &&& w.visited == v.visited
            &&& w.results == v.results
            &&& w.target == v.target
        }),
{
    assert(classify(status_500()) == Outcome::Retry);
}

/// An accepted target is visited; every result found before stays, the
/// marked text joins the results, and the page's unvisited links are
/// appended to the frontier in order.
pub proof fn lemma_accept_keeps_results(
    v: CrawlView,
    a: Seq<u8>,
    status: Seq<u8>,
    location: Option<Seq<u8>>,
    links: Seq<Seq<u8>>,
    marker: Option<Seq<u8>>,
)
    requires
        classify(status) == Outcome::Accepted,
    ensures
        ({
            let w = transition(v, a, status, location, links, marker);
            &&& w.visited.contains(a)
            &&& forall|x: Seq<u8>| v.results.contains(x) ==> w.results.contains(x)
            &&& (marker is Some ==> w.results.contains(marker->0))
            &&& w.frontier == v.frontier + unvisited(links, v.visited.push(a))
        }),
{
    let vis = v.visited.push(a);
    assert(vis[vis.len() - 1] == a);
    let w = transition(v, a, status, location, links, marker);
    assert forall|x: Seq<u8>| v.results.contains(x) implies w.results.contains(x) by {
        let i = choose|i: int| 0 <= i < v.results.len() && v.results[i] == x;
        match marker {
            Some(m) => {
                if !v.results.contains(m) {
                    assert(v.results.push(m)[i] == x);
                }
            },
            None => {},
        }
    }
    match marker {
        Some(m) => {
            if !v.results.contains(m) {
                assert(v.results.push(m)[v.results.len() as int] == m);
            }
        },
        None => {},
    }
}

} // verus!
