//! The route table: the registered routes in the order of their registration,
//! one for each key, with an index from keys to places for exact lookups.

use crate::http::Method;
use crate::search::lemma_first_is_position;
use crate::search::lemma_none_is_position;
use crate::search::lemma_position_is_first;
use crate::search::position;
use vstd::hash_map::StringHashMap;
use vstd::prelude::*;
use vstd::string::*;

verus! {

/// A registered route: the key it was registered under, the method that a
/// method helper bound it to, if one did, and the handler.
pub struct Route<H> {
    pub key: String,
    pub guard: Option<Method>,
    pub handler: H,
}

/// The mathematical content of a route.
pub struct RouteSpec<H> {
    pub key: Seq<char>,
    pub guard: Option<Method>,
    pub handler: H,
}

impl<H> View for Route<H> {
    type V = RouteSpec<H>;

    open spec fn view(&self) -> RouteSpec<H> {
        RouteSpec { key: self.key@, guard: self.guard, handler: self.handler }
    }
}

/// The mathematical content of a sequence of routes.
pub open spec fn views<H>(routes: Seq<Route<H>>) -> Seq<RouteSpec<H>> {
    Seq::new(routes.len(), |i: int| routes[i]@)
}

/// The place of the first route registered under `key`, if there is one.
pub open spec fn find_key<H>(routes: Seq<RouteSpec<H>>, key: Seq<char>) -> Option<int> {
    position(routes, |r: RouteSpec<H>| r.key == key)
}

/// Whether no two routes have the same key.
pub open spec fn distinct_keys<H>(routes: Seq<RouteSpec<H>>) -> bool {
    forall|i: int, j: int|
        0 <= i < j < routes.len() ==> (#[trigger] routes[i]).key != (#[trigger] routes[j]).key
}

/// The routes after `route` was registered: it takes the place of the route
/// with its key, or the place after the last where no route has its key.
pub open spec fn registered<H>(routes: Seq<RouteSpec<H>>, route: RouteSpec<H>) -> Seq<
    RouteSpec<H>,
> {
    match find_key(routes, route.key) {
        Some(i) => routes.update(i, route),
        None => routes.push(route),
    }
}

/// Registering keeps the keys distinct, and afterwards the route that was
/// registered is the one route with its key.
pub proof fn lemma_registered_is_the_one<H>(routes: Seq<RouteSpec<H>>, route: RouteSpec<H>)
    requires
        distinct_keys(routes),
    ensures
        distinct_keys(registered(routes, route)),
        find_key(registered(routes, route), route.key) is Some,
        registered(routes, route)[find_key(registered(routes, route), route.key)->0] == route,
        forall|j: int|
            0 <= j < registered(routes, route).len() && (#[trigger] registered(
                routes,
                route,
            )[j]).key == route.key ==> j == find_key(registered(routes, route), route.key)->0,
{
    let wanted = |r: RouteSpec<H>| r.key == route.key;
    let after = registered(routes, route);
    lemma_position_is_first(routes, wanted);
    match find_key(routes, route.key) {
        Some(i) => {
            assert forall|a: int, b: int| 0 <= a < b < after.len() implies (#[trigger] after[a]).key
                != (#[trigger] after[b]).key by {
                assert(after[a].key == routes[a].key);
                assert(after[b].key == routes[b].key);
            }
            assert forall|j: int| 0 <= j < i implies !wanted(#[trigger] after[j]) by {
                assert(after[j] == routes[j]);
            }
            lemma_first_is_position(after, wanted, i);
            assert forall|j: int| 0 <= j < after.len() && (#[trigger] after[j]).key
                == route.key implies j == i by {
                if j != i {
                    assert(after[j] == routes[j]);
                    assert(routes[i].key == route.key);
                    if j < i {
                        assert(routes[j].key != routes[i].key);
                    } else {
                        assert(routes[i].key != routes[j].key);
                    }
                }
            }
        },
        None => {
            let n = routes.len() as int;
            assert forall|a: int, b: int| 0 <= a < b < after.len() implies (#[trigger] after[a]).key
                != (#[trigger] after[b]).key by {
                assert(after[a] == routes[a]);
                if b < n {
                    assert(after[b] == routes[b]);
                } else {
                    assert(!wanted(routes[a]));
                }
            }
            assert forall|j: int| 0 <= j < n implies !wanted(#[trigger] after[j]) by {
                assert(after[j] == routes[j]);
                assert(!wanted(routes[j]));
            }
            lemma_first_is_position(after, wanted, n);
            assert forall|j: int| 0 <= j < after.len() && (#[trigger] after[j]).key
                == route.key implies j == n by {
                if j < n {
                    assert(after[j] == routes[j]);
                    assert(!wanted(routes[j]));
                }
            }
        },
    }
}

/// Registering twice under one key leaves what the second registration alone
/// would have left, but for the place: the route keeps the place that the key
/// had first.
pub proof fn lemma_second_registration_wins<H>(
    routes: Seq<RouteSpec<H>>,
    first: RouteSpec<H>,
    second: RouteSpec<H>,
)
    requires
        distinct_keys(routes),
        first.key == second.key,
    ensures
        registered(registered(routes, first), second) == registered(routes, second),
{
    let wanted = |r: RouteSpec<H>| r.key == first.key;
    assert(wanted == |r: RouteSpec<H>| r.key == second.key) by {
        assert(wanted =~= (|r: RouteSpec<H>| r.key == second.key));
    }
    let once = registered(routes, first);
    lemma_registered_is_the_one(routes, first);
    lemma_position_is_first(routes, wanted);
    lemma_position_is_first(once, wanted);
    match find_key(routes, first.key) {
        Some(i) => {
            let k = find_key(once, second.key)->0;
            assert(once[i].key == first.key);
            assert(k == i);
            assert(once.update(i, second) =~= routes.update(i, second));
        },
        None => {
            let n = routes.len() as int;
            let k = find_key(once, second.key)->0;
            assert(once[n].key == first.key);
            assert(k == n);
            assert(once.update(n, second) =~= routes.push(second));
        },
    }
}

/// The registered routes. No two of them have the same key; a route that is
/// registered under the key of another takes its place.
pub struct RouteTable<H> {
    routes: Vec<Route<H>>,
    index: StringHashMap<usize>,
}

impl<H> View for RouteTable<H> {
    type V = Seq<RouteSpec<H>>;

    /// The routes in the order in which their keys were first registered.
    closed spec fn view(&self) -> Seq<RouteSpec<H>> {
        views(self.routes@)
    }
}

impl<H> RouteTable<H> {
    /// The index holds each route's key with the route's place, and nothing
    /// else.
    #[verifier::type_invariant]
    spec fn consistent(self) -> bool {
        &&& forall|i: int|
            0 <= i < self.routes@.len() ==> self.index@.contains_key(
                (#[trigger] self.routes@[i]).key@,
            ) && self.index@[self.routes@[i].key@] == i
        &&& forall|k: Seq<char>| #[trigger]
            self.index@.contains_key(k) ==> self.index@[k] < self.routes@.len()
                && self.routes@[self.index@[k] as int].key@ == k
    }

    /// A table without routes.
    pub fn new() -> (out: Self)
        ensures
            out@ == Seq::<RouteSpec<H>>::empty(),
    {
        let out = RouteTable { routes: Vec::new(), index: StringHashMap::new() };
        assert(out@ =~= Seq::<RouteSpec<H>>::empty());
        out
    }

    /// The number of routes.
    pub fn len(&self) -> (out: usize)
        ensures
            out == self@.len(),
    {
        self.routes.len()
    }

    /// Registers `handler` under `key`, with the method that it is bound to,
    /// if any. A route that was registered under `key` before is replaced and
    /// keeps its place; otherwise the new route comes after all others.
    pub fn register(&mut self, key: String, guard: Option<Method>, handler: H)
        ensures
            final(self)@ == registered(
                old(self)@,
                (RouteSpec { key: key@, guard: guard, handler: handler }),
            ),
            distinct_keys(final(self)@),
    {
        proof {
            use_type_invariant(&*self);
            self.lemma_keys_are_distinct();
        }
        let ghost route = RouteSpec { key: key@, guard: guard, handler: handler };
        let ghost wanted = |r: RouteSpec<H>| r.key == key@;
        let ghost before = self@;
        let mut taken: RouteTable<H> = RouteTable::new();
        std::mem::swap(self, &mut taken);
        let RouteTable { mut routes, mut index } = taken;
        let found: Option<usize> = match index.get(key.as_str()) {
            Some(at) => Some(*at),
            None => None,
        };
        match found {
            Some(at) => {
                proof {
                    assert forall|j: int| 0 <= j < at implies !wanted(#[trigger] before[j]) by {
                        assert(routes@[j].key@ == before[j].key);
                    }
                    assert(before[at as int].key == routes@[at as int].key@);
                    lemma_first_is_position(before, wanted, at as int);
                }
                routes.set(at, Route { key: key, guard: guard, handler: handler });
                proof {
                    assert(views(routes@) =~= before.update(at as int, route));
                }
            },
            None => {
                proof {
                    assert forall|j: int| 0 <= j < before.len() implies !wanted(
                        #[trigger] before[j],
                    ) by {
                        assert(routes@[j].key@ == before[j].key);
                    }
                    lemma_none_is_position(before, wanted);
                }
                index.insert(key.clone(), routes.len());
                routes.push(Route { key: key, guard: guard, handler: handler });
                proof {
                    assert(views(routes@) =~= before.push(route));
                }
            },
        }
        *self = RouteTable { routes: routes, index: index };
        proof {
            lemma_registered_is_the_one(before, route);
        }
    }

    /// The route registered under exactly `key`, if there is one.
    pub fn lookup_exact(&self, key: &str) -> (out: Option<&Route<H>>)
        ensures
            distinct_keys(self@),
            match find_key(self@, key@) {
                Some(i) => out matches Some(route) && route@ == self@[i],
                None => out is None,
            },
    {
        proof {
            use_type_invariant(self);
            self.lemma_keys_are_distinct();
        }
        let ghost wanted = |r: RouteSpec<H>| r.key == key@;
        match self.index.get(key) {
            Some(at) => {
                proof {
                    assert forall|j: int| 0 <= j < *at implies !wanted(#[trigger] self@[j]) by {
                        assert(self.routes@[j].key@ == self@[j].key);
                    }
                    assert(self@[*at as int].key == self.routes@[*at as int].key@);
                    lemma_first_is_position(self@, wanted, *at as int);
                }
                Some(&self.routes[*at])
            },
            None => {
                proof {
                    assert forall|j: int| 0 <= j < self@.len() implies !wanted(
                        #[trigger] self@[j],
                    ) by {
                        assert(self.routes@[j].key@ == self@[j].key);
                    }
                    lemma_none_is_position(self@, wanted);
                }
                None
            },
        }
    }

    /// All routes, in the order in which their keys were first registered.
    pub fn iterate(&self) -> (out: &Vec<Route<H>>)
        ensures
            views(out@) == self@,
            distinct_keys(self@),
    {
        proof {
            use_type_invariant(self);
            self.lemma_keys_are_distinct();
        }
        &self.routes
    }

    /// A consistent index leaves no room for two routes with one key.
    proof fn lemma_keys_are_distinct(self)
        requires
            self.consistent(),
        ensures
            distinct_keys(self@),
    {
        assert forall|i: int, j: int| 0 <= i < j < self@.len() implies (#[trigger] self@[i]).key != (
        #[trigger] self@[j]).key by {
            assert(self@[i].key == self.routes@[i].key@);
            assert(self@[j].key == self.routes@[j].key@);
        }
    }
}

} // verus!
