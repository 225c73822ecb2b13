//! Routing by path.

use vstd::prelude::*;
use vstd::string::*;

use super::{Handler, Header, Reply, Request, RequestView, ResponseWriter, Url, METHOD_GET,
    STATUS_NOT_FOUND};
use crate::text;
use crate::text::{chars_of, chars_start_with, str_eq};

verus! {

/// A table of patterns. A pattern that ends with `/` stands for all paths that begin with it,
/// any other for itself alone. The latter count first, then the longest of the former.
pub struct ServeMux<H> {
    exact: Vec<(String, H)>,
    prefix: Vec<(String, H)>,
}

/// Whether a pattern stands for all paths that begin with it.
pub open spec fn is_prefix_pattern(p: Seq<char>) -> bool {
    p.len() > 0 && p.last() == '/'
}

/// The entries with their patterns as sequences.
pub open spec fn routes<H>(v: Seq<(String, H)>) -> Seq<(Seq<char>, H)> {
    Seq::new(v.len(), |i: int| (v[i].0@, v[i].1))
}

/// Whether a table has the pattern.
pub open spec fn has_pattern<H>(v: Seq<(Seq<char>, H)>, p: Seq<char>) -> bool {
    exists|i: int| 0 <= i < v.len() && (#[trigger] v[i]).0 == p
}

/// Whether a table has the pattern with the handler.
pub open spec fn has_route<H>(v: Seq<(Seq<char>, H)>, p: Seq<char>, h: H) -> bool {
    exists|i: int| 0 <= i < v.len() && #[trigger] v[i] == (p, h)
}

/// No pattern occurs twice.
pub open spec fn patterns_distinct<H>(v: Seq<(Seq<char>, H)>) -> bool {
    forall|i: int, j: int| 0 <= i < j < v.len() ==> (#[trigger] v[i]).0 != (#[trigger] v[j]).0
}

/// Longer patterns come first.
pub open spec fn longest_first<H>(v: Seq<(Seq<char>, H)>) -> bool {
    forall|i: int, j: int|
        0 <= i < j < v.len() ==> (#[trigger] v[i]).0.len() >= (#[trigger] v[j]).0.len()
}

impl<H> ServeMux<H> {
    /// The entries that stand for one path.
    pub closed spec fn exact_routes(&self) -> Seq<(Seq<char>, H)> {
        routes(self.exact@)
    }

    /// The entries that stand for all paths that begin with the pattern.
    pub closed spec fn prefix_routes(&self) -> Seq<(Seq<char>, H)> {
        routes(self.prefix@)
    }

    /// Patterns occur once, each in the table for its kind, and the longest prefixes come first.
    #[verifier::type_invariant]
    pub open spec fn wf(&self) -> bool {
        &&& patterns_distinct(self.exact_routes())
        &&& patterns_distinct(self.prefix_routes())
        &&& longest_first(self.prefix_routes())
        &&& forall|p: Seq<char>| #[trigger]
            has_pattern(self.exact_routes(), p) ==> !is_prefix_pattern(p)
        &&& forall|p: Seq<char>| #[trigger]
            has_pattern(self.prefix_routes(), p) ==> is_prefix_pattern(p)
    }

    /// Whether the pattern is registered.
    pub open spec fn registered(&self, p: Seq<char>) -> bool {
        has_pattern(
            if is_prefix_pattern(p) {
                self.prefix_routes()
            } else {
                self.exact_routes()
            },
            p,
        )
    }

    /// Whether the pattern is registered with the handler.
    pub open spec fn leads_to(&self, p: Seq<char>, h: H) -> bool {
        has_route(
            if is_prefix_pattern(p) {
                self.prefix_routes()
            } else {
                self.exact_routes()
            },
            p,
            h,
        )
    }

    /// Whether `h` is the handler for the path.
    pub open spec fn serves(&self, path: Seq<char>, h: H) -> bool {
        if has_pattern(self.exact_routes(), path) {
            has_route(self.exact_routes(), path, h)
        } else {
            exists|p: Seq<char>| #[trigger]
                has_route(self.prefix_routes(), p, h) && text::has_prefix(path, p) && forall|
                    q: Seq<char>,
                |
                    has_pattern(self.prefix_routes(), q) && #[trigger] text::has_prefix(path, q)
                        ==> q.len() <= p.len()
        }
    }

    /// Whether no pattern stands for the path.
    pub open spec fn unrouted(&self, path: Seq<char>) -> bool {
        &&& !has_pattern(self.exact_routes(), path)
        &&& forall|q: Seq<char>|
            has_pattern(self.prefix_routes(), q) ==> !#[trigger] text::has_prefix(path, q)
    }

    /// An empty table.
    pub fn new() -> (m: Self)
        ensures
            m.wf(),
            m.exact_routes() == Seq::<(Seq<char>, H)>::empty(),
            m.prefix_routes() == Seq::<(Seq<char>, H)>::empty(),
    {
        let exact: Vec<(String, H)> = Vec::new();
        let prefix: Vec<(String, H)> = Vec::new();
        assert(routes(exact@) =~= Seq::empty());
        assert(routes(prefix@) =~= Seq::empty());
        ServeMux { exact, prefix }
    }

    /// Registers a handler for a pattern that is not registered yet.
    pub fn handle(&mut self, pattern: &str, handler: H)
        requires
            pattern@.len() > 0,
            !old(self).registered(pattern@),
        ensures
            final(self).wf(),
            forall|p: Seq<char>, h: H| #[trigger]
                final(self).leads_to(p, h) <==> old(self).leads_to(p, h) || (p == pattern@ && h
                    == handler),
            forall|p: Seq<char>| #[trigger]
                final(self).registered(p) <==> old(self).registered(p) || p == pattern@,
    {
        let mut m: ServeMux<H> = ServeMux::new();
        std::mem::swap(self, &mut m);
        proof {
            use_type_invariant(&m);
        }
        let ghost exact_before = m.exact_routes();
        let ghost before = m.prefix_routes();
        let mut exact = m.exact;
        let mut prefix = m.prefix;
        let cs = chars_of(pattern);
        if cs[cs.len() - 1] == '/' {
            let n: usize = pattern.unicode_len();
            let mut i: usize = 0;
            while i < prefix.len() && prefix[i].0.as_str().unicode_len() >= n
                invariant
                    i <= prefix.len(),
                    n == pattern@.len(),
                    before == routes(prefix@),
                    forall|j: int| 0 <= j < i ==> (#[trigger] before[j]).0.len() >= n,
                decreases prefix.len() - i,
            {
                i += 1;
            }
            proof {
                if i < before.len() {
                    assert(before[i as int].0 == prefix@[i as int].0@);
                }
                lemma_route_inserted(before, i as int, (pattern@, handler));
            }
            prefix.insert(i, (pattern.to_owned(), handler));
            assert(routes(prefix@) =~= before.insert(i as int, (pattern@, handler)));
        } else {
            exact.push((pattern.to_owned(), handler));
            assert(routes(exact@) =~= exact_before.push((pattern@, handler)));
            proof {
                lemma_route_added(
                    exact_before,
                    exact_before.len() as int,
                    (pattern@, handler),
                );
                assert(exact_before.insert(exact_before.len() as int, (pattern@, handler))
                    =~= exact_before.push((pattern@, handler)));
            }
        }
        *self = ServeMux { exact, prefix };
    }

    /// The handler for a path, if a pattern stands for it.
    pub fn match_handler(&self, path: &str) -> (r: Option<&H>)
        ensures
            match r {
                Some(h) => self.serves(path@, *h),
                None => self.unrouted(path@),
            },
    {
        proof {
            use_type_invariant(self);
        }
        let ghost es = self.exact_routes();
        let mut i: usize = 0;
        while i < self.exact.len()
            invariant
                i <= self.exact.len(),
                es == self.exact_routes(),
                forall|j: int| 0 <= j < i ==> (#[trigger] es[j]).0 != path@,
            decreases self.exact.len() - i,
        {
            assert(es[i as int] == (self.exact@[i as int].0@, self.exact@[i as int].1));
            if str_eq(self.exact[i].0.as_str(), path) {
                return Some(&self.exact[i].1);
            }
            i += 1;
        }
        assert(!has_pattern(es, path@));
        let ghost ps = self.prefix_routes();
        let cs = chars_of(path);
        let mut k: usize = 0;
        while k < self.prefix.len()
            invariant
                k <= self.prefix.len(),
                self.wf(),
                ps == self.prefix_routes(),
                cs@ == path@,
                !has_pattern(self.exact_routes(), path@),
                forall|j: int| 0 <= j < k ==> !text::has_prefix(path@, (#[trigger] ps[j]).0),
            decreases self.prefix.len() - k,
        {
            assert(ps[k as int] == (self.prefix@[k as int].0@, self.prefix@[k as int].1));
            if chars_start_with(cs.as_slice(), self.prefix[k].0.as_str()) {
                let ghost p = ps[k as int].0;
                proof {
                    assert(has_route(ps, p, self.prefix@[k as int].1));
                    assert forall|q: Seq<char>|
                        has_pattern(ps, q) && #[trigger] text::has_prefix(path@, q) implies q.len()
                        <= p.len() by {
                        let j = choose|j: int| 0 <= j < ps.len() && (#[trigger] ps[j]).0 == q;
                        assert(j >= k);
                    }
                }
                return Some(&self.prefix[k].1);
            }
            k += 1;
        }
        assert forall|q: Seq<char>| has_pattern(ps, q) implies !#[trigger] text::has_prefix(
            path@,
            q,
        ) by {
            let j = choose|j: int| 0 <= j < ps.len() && (#[trigger] ps[j]).0 == q;
        }
        None
    }
}

impl<H> Default for ServeMux<H> {
    fn default() -> (m: Self)
        ensures
            m.wf(),
            m.exact_routes() == Seq::<(Seq<char>, H)>::empty(),
            m.prefix_routes() == Seq::<(Seq<char>, H)>::empty(),
    {
        ServeMux::new()
    }
}

proof fn lemma_route_added<H>(v: Seq<(Seq<char>, H)>, i: int, e: (Seq<char>, H))
    requires
        0 <= i <= v.len(),
        patterns_distinct(v),
        !has_pattern(v, e.0),
    ensures
        patterns_distinct(v.insert(i, e)),
        forall|p: Seq<char>, h: H| #[trigger]
            has_route(v.insert(i, e), p, h) <==> has_route(v, p, h) || (p, h) == e,
        forall|p: Seq<char>| #[trigger]
            has_pattern(v.insert(i, e), p) <==> has_pattern(v, p) || p == e.0,
{
    let u = v.insert(i, e);
    assert(u[i] == e);
    assert forall|j: int| 0 <= j < v.len() implies #[trigger] v[j] == u[if j < i {
        j
    } else {
        j + 1
    }] by {}
    assert forall|a: int, b: int| 0 <= a < b < u.len() implies (#[trigger] u[a]).0 != (
    #[trigger] u[b]).0 by {
        let va = if a < i { a } else { a - 1 };
        let vb = if b < i { b } else { b - 1 };
        if a != i && b != i {
            assert(u[a] == v[va] && u[b] == v[vb]);
        } else if a == i {
            assert(u[b] == v[vb]);
        } else {
            assert(u[a] == v[va]);
        }
    }
    assert forall|p: Seq<char>, h: H| #[trigger]
        has_route(u, p, h) <==> has_route(v, p, h) || (p, h) == e by {
        if has_route(u, p, h) {
            let j = choose|j: int| 0 <= j < u.len() && #[trigger] u[j] == (p, h);
            if j != i {
                assert(v[if j < i { j } else { j - 1 }] == (p, h));
            }
        }
        if has_route(v, p, h) {
            let j = choose|j: int| 0 <= j < v.len() && #[trigger] v[j] == (p, h);
            assert(u[if j < i { j } else { j + 1 }] == (p, h));
        }
    }
    assert forall|p: Seq<char>| #[trigger] has_pattern(u, p) <==> has_pattern(v, p) || p == e.0 by {
        if has_pattern(u, p) {
            let j = choose|j: int| 0 <= j < u.len() && (#[trigger] u[j]).0 == p;
            if j != i {
                assert(v[if j < i { j } else { j - 1 }].0 == p);
            }
        }
        if has_pattern(v, p) {
            let j = choose|j: int| 0 <= j < v.len() && (#[trigger] v[j]).0 == p;
            assert(u[if j < i { j } else { j + 1 }].0 == p);
        }
    }
}

proof fn lemma_route_inserted<H>(v: Seq<(Seq<char>, H)>, i: int, e: (Seq<char>, H))
    requires
        0 <= i <= v.len(),
        patterns_distinct(v),
        longest_first(v),
        !has_pattern(v, e.0),
        forall|j: int| 0 <= j < i ==> (#[trigger] v[j]).0.len() >= e.0.len(),
        i < v.len() ==> v[i].0.len() < e.0.len(),
    ensures
        patterns_distinct(v.insert(i, e)),
        longest_first(v.insert(i, e)),
        forall|p: Seq<char>, h: H| #[trigger]
            has_route(v.insert(i, e), p, h) <==> has_route(v, p, h) || (p, h) == e,
        forall|p: Seq<char>| #[trigger]
            has_pattern(v.insert(i, e), p) <==> has_pattern(v, p) || p == e.0,
{
    lemma_route_added(v, i, e);
    let u = v.insert(i, e);
    assert forall|a: int, b: int| 0 <= a < b < u.len() implies (#[trigger] u[a]).0.len() >= (
    #[trigger] u[b]).0.len() by {
        let va = if a < i { a } else { a - 1 };
        let vb = if b < i { b } else { b - 1 };
        if a != i && b != i {
            assert(u[a] == v[va] && u[b] == v[vb]);
        } else if a == i {
            assert(u[b] == v[vb]);
            assert(v[i].0.len() >= v[vb].0.len());
        } else {
            assert(u[a] == v[va]);
        }
    }
}

/// The answer where no pattern stands for a path.
pub open spec fn not_found(before: Reply) -> Reply {
    before.with_field("Content-Type"@, "text/plain; charset=utf-8"@).with_field(
        "Content-Length"@,
        "9"@,
    ).begun(STATUS_NOT_FOUND).written("Not Found".spec_bytes())
}

/// Answers with status 404.
pub fn http404<W: ResponseWriter>(w: &mut W)
    ensures
        final(w).reply() == not_found(old(w).reply()),
{
    w.set_header("Content-Type", "text/plain; charset=utf-8");
    w.set_header("Content-Length", "9");
    w.write_header(STATUS_NOT_FOUND);
    w.write("Not Found".as_bytes());
}

impl<H: Handler> ServeMux<H> {
    /// Hands the request to the handler for its path, or answers with status 404.
    pub fn serve_http<W: ResponseWriter>(&self, w: &mut W, r: &Request)
        ensures
            self.unrouted(r@.path) && final(w).reply() == not_found(old(w).reply()) || exists|
                h: H,
            |
                self.serves(r@.path, h) && #[trigger] h.answers(
                    r@,
                    old(w).reply(),
                    final(w).reply(),
                ),
    {
        match self.match_handler(r.url.path.as_str()) {
            Some(h) => {
                h.serve_http(w, r);
            },
            None => {
                http404(w);
            },
        }
    }
}

/// A `GET` request for a path, with nothing else in it.
pub fn request_with_path(path: &str) -> (r: Request)
    ensures
        r@ == (RequestView {
            method: METHOD_GET@,
            path: path@,
            raw_query: Seq::empty(),
            header: Map::empty(),
            body: Seq::empty(),
            host: Seq::empty(),
            remote_addr: Seq::empty(),
            content_length: 0,
        }),
{
    Request {
        method: METHOD_GET.to_owned(),
        url: Url { path: path.to_owned(), raw_query: String::new() },
        header: Header::new(),
        body: Vec::new(),
        host: String::new(),
        remote_addr: String::new(),
        content_length: 0,
    }
}

/// A path has at most one handler.
pub proof fn law_one_handler<H>(m: ServeMux<H>, path: Seq<char>, a: H, b: H)
    requires
        m.wf(),
        m.serves(path, a),
        m.serves(path, b),
    ensures
        a == b,
{
    let es = m.exact_routes();
    let ps = m.prefix_routes();
    if has_pattern(es, path) {
        let i = choose|i: int| 0 <= i < es.len() && #[trigger] es[i] == (path, a);
        let j = choose|j: int| 0 <= j < es.len() && #[trigger] es[j] == (path, b);
        if i != j {
            assert(es[i].0 == es[j].0);
        }
    } else {
        let p = choose|p: Seq<char>| #[trigger]
            has_route(ps, p, a) && text::has_prefix(path, p) && forall|q: Seq<char>|
                has_pattern(ps, q) && #[trigger] text::has_prefix(path, q) ==> q.len() <= p.len();
        let q = choose|p: Seq<char>| #[trigger]
            has_route(ps, p, b) && text::has_prefix(path, p) && forall|q: Seq<char>|
                has_pattern(ps, q) && #[trigger] text::has_prefix(path, q) ==> q.len() <= p.len();
        let i = choose|i: int| 0 <= i < ps.len() && #[trigger] ps[i] == (p, a);
        let j = choose|j: int| 0 <= j < ps.len() && #[trigger] ps[j] == (q, b);
        assert(ps[i].0 == p && ps[j].0 == q);
        assert(has_pattern(ps, p) && has_pattern(ps, q));
        assert(p.len() == q.len());
        assert(p =~= q);
        if i != j {
            assert(ps[i].0 == ps[j].0);
        }
    }
}

} // verus!
