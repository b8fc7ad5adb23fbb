//! The exact-match routing table: one path→route mapping per method, plus an
//! optional fallback handler. A route's handler is whatever the application
//! supplies — any `Copy` value, typically a function pointer.

use vstd::prelude::*;
use crate::kv::{assoc_map, distinct_keys, lemma_assoc_map_at, lemma_assoc_map_domain,
    lemma_assoc_map_push};
use crate::method::Method;
use crate::text::str_eq;

verus! {

/// An immutable (method, exact path) → handler binding.
pub struct Route<H> {
    pub path: String,
    pub method: Method,
    pub callback: Option<H>,
}

impl<H: Copy> Route<H> {
    pub fn new(path: &str, method: Method, callback: H) -> (r: Self)
        ensures
            r.path@ == path@,
            r.method == method,
            r.callback == Some(callback),
    {
        Route { path: String::from_str(path), method, callback: Some(callback) }
    }
}

/// The entries a route list denotes, keyed by path.
pub open spec fn route_entries<H>(rs: Seq<Route<H>>) -> Seq<(Seq<char>, Route<H>)> {
    rs.map_values(|r: Route<H>| (r.path@, r))
}

/// What `add` does to a table: first write wins, a later add of the same path
/// is a no-op.
pub open spec fn spec_add<H>(t: Map<Seq<char>, Route<H>>, r: Route<H>) -> Map<
    Seq<char>,
    Route<H>,
> {
    if t.contains_key(r.path@) {
        t
    } else {
        t.insert(r.path@, r)
    }
}

/// Per-method path→route tables plus an optional fallback handler.
pub struct Router<H> {
    get: Vec<Route<H>>,
    post: Vec<Route<H>>,
    put: Vec<Route<H>>,
    patch: Vec<Route<H>>,
    delete: Vec<Route<H>>,
    not_found: Option<H>,
}

impl<H: Copy> Router<H> {
    /// The route list kept for a method.
    pub closed spec fn table(&self, m: Method) -> Seq<Route<H>> {
        match m {
            Method::Get => self.get@,
            Method::Post => self.post@,
            Method::Put => self.put@,
            Method::Patch => self.patch@,
            Method::Delete => self.delete@,
        }
    }

    /// The path→route mapping kept for a method.
    pub closed spec fn map_of(&self, m: Method) -> Map<Seq<char>, Route<H>> {
        assoc_map(route_entries(self.table(m)))
    }

    /// The configured fallback handler, if any.
    pub closed spec fn fallback(&self) -> Option<H> {
        self.not_found
    }

    /// One table in good order: paths are distinct and every route carries
    /// that table's method and a handler.
    pub closed spec fn table_ok(&self, m: Method) -> bool {
        &&& distinct_keys(route_entries(self.table(m)))
        &&& forall|i: int|
            0 <= i < self.table(m).len() ==> (#[trigger] self.table(m)[i]).method == m
                && self.table(m)[i].callback is Some
    }

    /// Well-formed: every table is in good order.
    pub closed spec fn wf(&self) -> bool {
        forall|m: Method| #[trigger] self.table_ok(m)
    }

    pub fn new() -> (r: Self)
        ensures
            r.wf(),
            forall|m: Method| r.map_of(m) == Map::<Seq<char>, Route<H>>::empty(),
            r.fallback() is None,
    {
        let r = Router {
            get: Vec::new(),
            post: Vec::new(),
            put: Vec::new(),
            patch: Vec::new(),
            delete: Vec::new(),
            not_found: None,
        };
        proof {
            assert forall|m: Method| r.map_of(m) == Map::<Seq<char>, Route<H>>::empty() by {
                assert(r.table(m) =~= Seq::<Route<H>>::empty());
                assert(route_entries(r.table(m)) =~= Seq::<(Seq<char>, Route<H>)>::empty());
            }
            assert forall|m: Method| #[trigger] r.table_ok(m) by {
                assert(r.table(m) =~= Seq::<Route<H>>::empty());
            }
        }
        r
    }

    /// Insert a route into its method's table; the first write for a path
    /// wins, a later `add` with the same path changes nothing.
    pub fn add(&mut self, route: Route<H>)
        requires
            old(self).wf(),
            route.callback is Some,
        ensures
            final(self).wf(),
            final(self).map_of(route.method) == spec_add(
                old(self).map_of(route.method),
                route,
            ),
            forall|m: Method| m != route.method ==> final(self).map_of(m) == old(self).map_of(m),
            final(self).fallback() == old(self).fallback(),
    {
        let ghost m = route.method;
        proof {
            assert(old(self).table_ok(m));
        }
        match route.method {
            Method::Get => add_to(&mut self.get, route),
            Method::Post => add_to(&mut self.post, route),
            Method::Put => add_to(&mut self.put, route),
            Method::Patch => add_to(&mut self.patch, route),
            Method::Delete => add_to(&mut self.delete, route),
        }
        proof {
            assert forall|m2: Method| m2 != m implies final(self).map_of(m2) == old(self).map_of(
                m2,
            ) by {
                assert(final(self).table(m2) == old(self).table(m2));
            }
            assert(final(self).table(m) == old(self).table(m) || final(self).table(m) == old(
                self,
            ).table(m).push(route));
            assert forall|m2: Method| #[trigger] final(self).table_ok(m2) by {
                assert(old(self).table_ok(m2));
                if m2 != m {
                    assert(final(self).table(m2) == old(self).table(m2));
                    assert forall|i: int| 0 <= i < final(self).table(m2).len() implies (
                    #[trigger] final(self).table(m2)[i]).method == m2 && final(self).table(
                        m2,
                    )[i].callback is Some by {
                        assert(old(self).table(m2)[i].method == m2);
                    }
                } else {
                    assert forall|i: int| 0 <= i < final(self).table(m2).len() implies (
                    #[trigger] final(self).table(m2)[i]).method == m2 && final(self).table(
                        m2,
                    )[i].callback is Some by {
                        if i < old(self).table(m).len() {
                            assert(old(self).table(m)[i].method == m);
                            assert(final(self).table(m)[i] == old(self).table(m)[i]);
                        } else {
                            assert(final(self).table(m)[i] == route);
                        }
                    }
                }
            }
        }
    }

    /// Exact lookup in the method's table; no normalization of any kind.
    pub fn get(&self, method: &Method, path: &str) -> (r: Option<&Route<H>>)
        requires
            self.wf(),
        ensures
            match r {
                Some(route) => self.map_of(*method).contains_key(path@) && *route == self.map_of(
                    *method,
                )[path@],
                None => !self.map_of(*method).contains_key(path@),
            },
    {
        proof {
            assert(self.table_ok(*method));
        }
        match method {
            Method::Get => find_in(&self.get, path),
            Method::Post => find_in(&self.post, path),
            Method::Put => find_in(&self.put, path),
            Method::Patch => find_in(&self.patch, path),
            Method::Delete => find_in(&self.delete, path),
        }
    }

    /// Configure the fallback handler run when no route matches.
    pub fn not_found(&mut self, callback: H)
        requires
            old(self).wf(),
        ensures
            final(self).wf(),
            final(self).fallback() == Some(callback),
            forall|m: Method| final(self).map_of(m) == old(self).map_of(m),
    {
        self.not_found = Some(callback);
        proof {
            assert forall|m: Method| final(self).map_of(m) == old(self).map_of(m) by {
                assert(final(self).table(m) == old(self).table(m));
            }
            assert forall|m: Method| #[trigger] final(self).table_ok(m) by {
                assert(old(self).table_ok(m));
                assert(final(self).table(m) == old(self).table(m));
                assert forall|i: int| 0 <= i < final(self).table(m).len() implies (
                #[trigger] final(self).table(m)[i]).method == m && final(self).table(
                    m,
                )[i].callback is Some by {
                    assert(old(self).table(m)[i].method == m);
                }
            }
        }
    }

    /// The orchestrator's choice for one request: the matched route's handler,
    /// else the configured fallback, else none (the caller's built-in default).
    pub fn choose_callback(&self, method: &Method, path: &str) -> (r: Option<H>)
        requires
            self.wf(),
        ensures
            self.map_of(*method).contains_key(path@) ==> r == self.map_of(*method)[path@].callback
                && r is Some,
            !self.map_of(*method).contains_key(path@) ==> r == self.fallback(),
    {
        match self.get(method, path) {
            Some(route) => {
                proof {
                    lemma_wf_lookup(self, *method, path@);
                }
                route.callback
            },
            None => self.not_found,
        }
    }
}

/// In a well-formed router, a stored route carries its table's method, its own
/// path, and a handler.
proof fn lemma_wf_lookup<H: Copy>(r: &Router<H>, m: Method, p: Seq<char>)
    requires
        r.wf(),
        r.map_of(m).contains_key(p),
    ensures
        r.map_of(m)[p].callback is Some,
        r.map_of(m)[p].method == m,
        r.map_of(m)[p].path@ == p,
{
    assert(r.table_ok(m));
    let es = route_entries(r.table(m));
    lemma_assoc_map_domain(es);
    let i = choose|i: int| 0 <= i < es.len() && #[trigger] es[i].0 == p;
    assert(distinct_keys(es));
    lemma_assoc_map_at(es, i);
    assert(es[i].1 == r.table(m)[i]);
    assert(r.table(m)[i].method == m);
}

/// Append the route unless its path is already present.
fn add_to<H: Copy>(list: &mut Vec<Route<H>>, route: Route<H>)
    requires
        distinct_keys(route_entries(old(list)@)),
    ensures
        distinct_keys(route_entries(final(list)@)),
        assoc_map(route_entries(final(list)@)) == spec_add(
            assoc_map(route_entries(old(list)@)),
            route,
        ),
        final(list)@ == old(list)@ || final(list)@ == old(list)@.push(route),
{
    let n = list.len();
    let mut i: usize = 0;
    while i < n
        invariant
            i <= n,
            n == list@.len(),
            list == old(list),
            distinct_keys(route_entries(list@)),
            forall|j: int| 0 <= j < i ==> #[trigger] route_entries(list@)[j].0 != route.path@,
        decreases n - i,
    {
        if str_eq(list[i].path.as_str(), route.path.as_str()) {
            proof {
                assert(route_entries(list@)[i as int].0 == route.path@);
                lemma_assoc_map_domain(route_entries(list@));
            }
            return;
        }
        i = i + 1;
    }
    proof {
        lemma_assoc_map_domain(route_entries(list@));
    }
    list.push(route);
    proof {
        lemma_assoc_map_push(route_entries(old(list)@), route.path@, route);
        assert(route_entries(final(list)@) =~= route_entries(old(list)@).push(
            (route.path@, route),
        ));
    }
}

/// Scan a route list for an exact path match.
fn find_in<'a, H: Copy>(list: &'a Vec<Route<H>>, path: &str) -> (r: Option<&'a Route<H>>)
    requires
        distinct_keys(route_entries(list@)),
    ensures
        match r {
            Some(route) => assoc_map(route_entries(list@)).contains_key(path@) && *route
                == assoc_map(route_entries(list@))[path@],
            None => !assoc_map(route_entries(list@)).contains_key(path@),
        },
{
    let n = list.len();
    let mut i: usize = 0;
    while i < n
        invariant
            i <= n,
            n == list@.len(),
            distinct_keys(route_entries(list@)),
            forall|j: int| 0 <= j < i ==> #[trigger] route_entries(list@)[j].0 != path@,
        decreases n - i,
    {
        if str_eq(list[i].path.as_str(), path) {
            proof {
                assert(route_entries(list@)[i as int].0 == path@);
                lemma_assoc_map_at(route_entries(list@), i as int);
            }
            return Some(&list[i]);
        }
        i = i + 1;
    }
    proof {
        lemma_assoc_map_domain(route_entries(list@));
    }
    None
}

/// Law (route precedence): once a path is bound, adding another route for the
/// same path changes nothing — lookup keeps returning the first route.
pub proof fn lemma_route_precedence<H>(t: Map<Seq<char>, Route<H>>, r1: Route<H>, r2: Route<H>)
    requires
        r1.path@ == r2.path@,
        !t.contains_key(r1.path@),
    ensures
        spec_add(spec_add(t, r1), r2) == spec_add(t, r1),
        spec_add(spec_add(t, r1), r2)[r1.path@] == r1,
{
}

} // verus!
