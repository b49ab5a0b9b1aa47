//! The route registry and the dispatcher: registration binds a (verb,
//! path) pair to a service, dispatch looks the pair up and hands the
//! payload to the service it finds.
use vstd::prelude::*;

use crate::handler::{Factory, Handler};
use crate::request::{Path, Request, RequestType};
use crate::scalar::ScalarKind;
use crate::service::{decoded_seq, total_width, BoxedService, HttpStatus, Payload};

verus! {

/// Dispatching a verb and path that no handler was registered under.
#[derive(Debug)]
pub enum DispatchError {
    RouteNotFound { ty: RequestType, path: Path },
}

/// One registry binding: a path and the service bound to it.
pub struct Route<F> {
    pub path: Path,
    pub service: BoxedService<F>,
}

/// First binding for `k` in the entry list, if any.
pub open spec fn route_lookup<F>(s: Seq<Route<F>>, k: Seq<char>) -> Option<BoxedService<F>>
    decreases s.len(),
{
    if s.len() == 0 {
        None
    } else if s[0].path@ == k {
        Some(s[0].service)
    } else {
        route_lookup(s.drop_first(), k)
    }
}

/// No two entries bind the same path.
pub open spec fn routes_unique<F>(s: Seq<Route<F>>) -> bool {
    forall|i: int, j: int| 0 <= i < j < s.len() ==> s[i].path@ != s[j].path@
}

/// The finite map an entry list denotes.
pub open spec fn routes_map<F>(s: Seq<Route<F>>) -> Map<Seq<char>, BoxedService<F>> {
    Map::new(
        |k: Seq<char>| route_lookup(s, k) is Some,
        |k: Seq<char>| route_lookup(s, k)->Some_0,
    )
}

/// A lookup passes over any prefix that does not bind the key.
proof fn lemma_route_lookup_prefix<F>(s: Seq<Route<F>>, k: Seq<char>, i: int)
    requires
        0 <= i <= s.len(),
        forall|j: int| 0 <= j < i ==> s[j].path@ != k,
    ensures
        route_lookup(s, k) == route_lookup(s.skip(i), k),
    decreases i,
{
    if i == 0 {
        assert(s.skip(0) =~= s);
    } else {
        assert(s[0].path@ != k);
        assert forall|j: int| 0 <= j < i - 1 implies s.drop_first()[j].path@ != k by {
            assert(s.drop_first()[j] == s[j + 1]);
        }
        lemma_route_lookup_prefix(s.drop_first(), k, i - 1);
        assert(s.drop_first().skip(i - 1) =~= s.skip(i));
    }
}

/// Replacing the unique entry that binds a key rebinds exactly that key.
proof fn lemma_route_lookup_update<F>(s: Seq<Route<F>>, i: int, r: Route<F>, k2: Seq<char>)
    requires
        0 <= i < s.len(),
        routes_unique(s),
        s[i].path@ == r.path@,
    ensures
        route_lookup(s.update(i, r), k2) == (if k2 == r.path@ {
            Some(r.service)
        } else {
            route_lookup(s, k2)
        }),
    decreases i,
{
    let t = s.update(i, r);
    assert(t.len() == s.len());
    if i == 0 {
        assert(t[0] == r);
        if k2 != r.path@ {
            assert(t.drop_first() =~= s.drop_first());
        }
    } else {
        assert(t[0] == s[0]);
        assert(s[0].path@ != r.path@);
        assert(forall|a: int, b: int|
            0 <= a < b < s.drop_first().len() ==> #[trigger] s.drop_first()[a].path@
                != #[trigger] s.drop_first()[b].path@);
        lemma_route_lookup_update(s.drop_first(), i - 1, r, k2);
        assert(t.drop_first() =~= s.drop_first().update(i - 1, r));
    }
}

/// Appending an entry for a fresh key binds exactly that key.
proof fn lemma_route_lookup_push<F>(s: Seq<Route<F>>, r: Route<F>, k2: Seq<char>)
    requires
        forall|j: int| 0 <= j < s.len() ==> s[j].path@ != r.path@,
    ensures
        k2 == r.path@ ==> route_lookup(s.push(r), k2) == Some(r.service),
        k2 != r.path@ ==> route_lookup(s.push(r), k2) == route_lookup(s, k2),
    decreases s.len(),
{
    let t = s.push(r);
    if s.len() == 0 {
        assert(t[0] == r);
        assert(t.drop_first() =~= Seq::<Route<F>>::empty());
        assert(route_lookup(Seq::<Route<F>>::empty(), k2) is None);
    } else {
        assert(t[0] == s[0]);
        assert forall|j: int| 0 <= j < s.drop_first().len() implies s.drop_first()[j].path@
            != r.path@ by {
            assert(s.drop_first()[j] == s[j + 1]);
        }
        lemma_route_lookup_push(s.drop_first(), r, k2);
        assert(t.drop_first() =~= s.drop_first().push(r));
    }
}

/// Re-registering a path replaces the prior binding: after two
/// registrations at the same path, only the newest service is bound.
pub proof fn lemma_reregister_replaces<F>(
    m: Map<Seq<char>, BoxedService<F>>,
    k: Seq<char>,
    s1: BoxedService<F>,
    s2: BoxedService<F>,
)
    ensures
        m.insert(k, s1).insert(k, s2) == m.insert(k, s2),
        m.insert(k, s1).insert(k, s2)[k] == s2,
{
    assert(m.insert(k, s1).insert(k, s2) =~= m.insert(k, s2));
}

/// Inserts or overwrites the binding for `path` in one verb's entry list.
fn insert_route<F: Factory>(entries: &mut Vec<Route<F>>, path: Path, service: BoxedService<F>)
    requires
        routes_unique(old(entries)@),
    ensures
        routes_unique(final(entries)@),
        routes_map(final(entries)@) == routes_map(old(entries)@).insert(path@, service),
{
    let ghost k = path@;
    let n = entries.len();
    let mut i: usize = 0;
    while i < n
        invariant
            n == entries@.len(),
            i <= n,
            k == path@,
            entries@ == old(entries)@,
            routes_unique(entries@),
            forall|j: int| 0 <= j < i ==> entries@[j].path@ != k,
        decreases n - i,
    {
        if entries[i].path.eq_path(&path) {
            let ghost before = entries@;
            let r = Route { path, service };
            entries[i] = r;
            proof {
                assert(entries@ == before.update(i as int, r));
                assert forall|k2: Seq<char>|
                    route_lookup(entries@, k2) == (if k2 == k {
                        Some(r.service)
                    } else {
                        route_lookup(before, k2)
                    }) by {
                    lemma_route_lookup_update(before, i as int, r, k2);
                }
                assert(routes_map(entries@) =~= routes_map(before).insert(k, service));
                assert forall|a: int, b: int|
                    0 <= a < b < entries@.len() implies entries@[a].path@ != entries@[b].path@ by {
                    assert(before[a].path@ != before[b].path@);
                }
            }
            return ;
        }
        i = i + 1;
    }
    let r = Route { path, service };
    let ghost before = entries@;
    entries.push(r);
    proof {
        assert forall|k2: Seq<char>|
            route_lookup(entries@, k2) == (if k2 == k {
                Some(r.service)
            } else {
                route_lookup(before, k2)
            }) by {
            lemma_route_lookup_push(before, r, k2);
        }
        assert(routes_map(entries@) =~= routes_map(before).insert(k, service));
        assert forall|a: int, b: int|
            0 <= a < b < entries@.len() implies entries@[a].path@ != entries@[b].path@ by {
            if b < before.len() {
                assert(before[a].path@ != before[b].path@);
            } else {
                assert(before[a].path@ != k);
            }
        }
    }
}

/// The route registry and dispatcher: one handler type `F`, two verbs,
/// and one binding per (verb, path) pair.
pub struct Server<F> {
    pub get: Vec<Route<F>>,
    pub post: Vec<Route<F>>,
}

impl<F: Factory> Server<F> {
    /// Each verb's entry list binds every path at most once.
    pub open spec fn wf(&self) -> bool {
        routes_unique(self.get@) && routes_unique(self.post@)
    }

    /// The bindings registered under `Get`.
    pub open spec fn get_routes(&self) -> Map<Seq<char>, BoxedService<F>> {
        routes_map(self.get@)
    }

    /// The bindings registered under `Post`.
    pub open spec fn post_routes(&self) -> Map<Seq<char>, BoxedService<F>> {
        routes_map(self.post@)
    }

    /// The bindings registered under `ty`.
    pub open spec fn routes_for(&self, ty: RequestType) -> Map<Seq<char>, BoxedService<F>> {
        match ty {
            RequestType::Get => self.get_routes(),
            RequestType::Post => self.post_routes(),
        }
    }

    /// A server with no routes registered.
    pub fn new() -> (s: Server<F>)
        ensures
            s.wf(),
            s.get_routes() == Map::<Seq<char>, BoxedService<F>>::empty(),
            s.post_routes() == Map::<Seq<char>, BoxedService<F>>::empty(),
    {
        let s = Server::<F> { get: Vec::new(), post: Vec::new() };
        proof {
            assert(s.get_routes() =~= Map::<Seq<char>, BoxedService<F>>::empty());
            assert(s.post_routes() =~= Map::<Seq<char>, BoxedService<F>>::empty());
        }
        s
    }

    /// Registers `f` under `Get` at `path` with the declared argument
    /// signature `sig`, silently replacing any prior binding.
    pub fn get(&mut self, path: &str, sig: Vec<ScalarKind>, f: F)
        requires
            old(self).wf(),
        ensures
            final(self).wf(),
            final(self).get_routes() == old(self).get_routes().insert(
                path@,
                (BoxedService { sig, handler: (Handler { f }) }),
            ),
            final(self).post_routes() == old(self).post_routes(),
    {
        let service = BoxedService::from_handler(Handler::new(f), sig);
        insert_route(&mut self.get, Path::new(path), service);
    }

    /// Registers `f` under `Post` at `path` with the declared argument
    /// signature `sig`, silently replacing any prior binding.
    pub fn post(&mut self, path: &str, sig: Vec<ScalarKind>, f: F)
        requires
            old(self).wf(),
        ensures
            final(self).wf(),
            final(self).post_routes() == old(self).post_routes().insert(
                path@,
                (BoxedService { sig, handler: (Handler { f }) }),
            ),
            final(self).get_routes() == old(self).get_routes(),
    {
        let service = BoxedService::from_handler(Handler::new(f), sig);
        insert_route(&mut self.post, Path::new(path), service);
    }

    /// Looks up the request's (verb, path) pair and hands the payload to
    /// the bound service. An unregistered pair is reported as
    /// `RouteNotFound`; a registered one always yields an outcome: the
    /// handler's own on a payload long enough for the declared
    /// signature, and `Failed` on a shorter one.
    pub fn handle_request(&self, request: Request) -> (r: Result<HttpStatus, DispatchError>)
        requires
            self.wf(),
        ensures
            ({
                let m = self.routes_for(request.ty);
                &&& (r is Err <==> !m.contains_key(request.path@))
                &&& (r matches Err(e) ==> e == (DispatchError::RouteNotFound {
                    ty: request.ty,
                    path: request.path,
                }))
                &&& (m.contains_key(request.path@) ==> ({
                    let svc = m[request.path@];
                    &&& (request.payload@.len() < total_width(svc.sig@) ==> r
                        == Ok::<HttpStatus, DispatchError>(HttpStatus::Failed))
                    &&& (request.payload@.len() >= total_width(svc.sig@) ==> r == Ok::<
                        HttpStatus,
                        DispatchError,
                    >(svc.handler.f.spec_call(decoded_seq(svc.sig@, request.payload@, 0))))
                }))
            }),
    {
        let entries = match request.ty {
            RequestType::Get => &self.get,
            RequestType::Post => &self.post,
        };
        let n = entries.len();
        let mut i: usize = 0;
        while i < n
            invariant
                n == entries@.len(),
                entries@ == (match request.ty {
                    RequestType::Get => self.get@,
                    RequestType::Post => self.post@,
                }),
                i <= n,
                forall|j: int| 0 <= j < i ==> entries@[j].path@ != request.path@,
            decreases n - i,
        {
            if entries[i].path.eq_path(&request.path) {
                proof {
                    lemma_route_lookup_prefix(entries@, request.path@, i as int);
                    assert(entries@.skip(i as int)[0] == entries@[i as int]);
                }
                let payload = Payload::from_bytes(request.payload.as_slice());
                let status = entries[i].service.handle(payload);
                return Ok(status);
            }
            i = i + 1;
        }
        proof {
            lemma_route_lookup_prefix(entries@, request.path@, n as int);
            assert(entries@.skip(n as int).len() == 0);
        }
        Err(DispatchError::RouteNotFound { ty: request.ty, path: request.path })
    }
}

} // verus!
