//! The application: a route table with its settings, and the dispatcher that
//! resolves a request to a handler.
//!
//! A request is resolved in four steps, of which the first that finds a route
//! decides. First the route registered under exactly `<METHOD> <path>`; then
//! the route registered under exactly the path; then the first route that a
//! method helper registered for exactly the path, whatever its method; then
//! the first route, in the order of registration, whose key matches the
//! request by the pattern rule. A route that a method helper registered
//! refuses every other method: so a request for a path that is registered
//! through method helpers only, and for none of its methods, is refused, and
//! no pattern is tried for it.

use crate::config::FlaskConfig;
use crate::http::Method;
use crate::http::Request;
use crate::http::Response;
use crate::http::method_not_allowed;
use crate::http::not_found;
use crate::matcher::extract_path_params;
use crate::matcher::key_pattern_is;
use crate::matcher::match_route_pattern;
use crate::params::Bindings;
use crate::params::RouteParams;
use crate::pattern::extracted;
use crate::pattern::key_method;
use crate::pattern::key_pattern;
use crate::pattern::match_path;
use crate::pattern::matched;
use crate::search::lemma_first_is_position;
use crate::search::lemma_none_is_position;
use crate::search::lemma_position_is_first;
use crate::search::position;
use crate::table::Route;
use crate::table::RouteSpec;
use crate::table::RouteTable;
use crate::table::distinct_keys;
use crate::table::find_key;
use crate::table::lemma_registered_is_the_one;
use crate::table::registered;
use crate::table::views;
use crate::text::same_str;
use vstd::prelude::*;
use vstd::string::*;

verus! {

/// The key under which a route for one method is registered, and under which
/// a request is looked up first: the method's token, a space, and the path.
pub open spec fn route_key(method: Seq<char>, path: Seq<char>) -> Seq<char> {
    method + " "@ + path
}

/// Whether a route bound to `guard` accepts a request of `method`: a route
/// that no method helper registered accepts every method.
pub open spec fn admits(guard: Option<Method>, method: Seq<char>) -> bool {
    match guard {
        Some(m) => m.token() == method,
        None => true,
    }
}

/// The place of the first route whose key matches the request by the pattern
/// rule, if there is one.
pub open spec fn first_match<H>(routes: Seq<RouteSpec<H>>, method: Seq<char>, path: Seq<char>)
    -> Option<int> {
    position(routes, |r: RouteSpec<H>| matched(r.key, path, method) is Some)
}

/// The place of the first route that is bound to a method and whose pattern
/// is exactly `path`, if there is one.
pub open spec fn find_guarded<H>(routes: Seq<RouteSpec<H>>, path: Seq<char>) -> Option<int> {
    position(routes, |r: RouteSpec<H>| r.guard is Some && key_pattern(r.key) == path)
}

/// The route that a request resolves to, by its place, with the parameters
/// bound on the way; nothing where no route is found.
pub open spec fn resolve<H>(routes: Seq<RouteSpec<H>>, method: Seq<char>, path: Seq<char>)
    -> Option<(int, Bindings)> {
    match find_key(routes, route_key(method, path)) {
        Some(i) => Some((i, extracted(path, path))),
        None => match find_key(routes, path) {
            Some(i) => Some((i, extracted(path, path))),
            None => match find_guarded(routes, path) {
                Some(i) => Some((i, extracted(path, path))),
                None => match first_match(routes, method, path) {
                    Some(i) => Some((i, matched(routes[i].key, path, method)->0)),
                    None => None,
                },
            },
        },
    }
}

/// What the dispatcher decides for a request, as a mathematical value.
pub enum Outcome<H> {
    /// The request goes to `handler`, with `params`.
    Handle { handler: H, params: Bindings },
    /// A route was found, and it refuses the request's method.
    MethodNotAllowed,
    /// No route was found.
    NotFound,
}

/// What the dispatcher decides for a request of `method` for `path`.
pub open spec fn outcome<H>(routes: Seq<RouteSpec<H>>, method: Seq<char>, path: Seq<char>)
    -> Outcome<H> {
    match resolve(routes, method, path) {
        Some((i, params)) => if admits(routes[i].guard, method) {
            Outcome::Handle { handler: routes[i].handler, params: params }
        } else {
            Outcome::MethodNotAllowed
        },
        None => Outcome::NotFound,
    }
}

/// A request is answered with "not found" exactly where no route is
/// registered under its key or under its path, no route that is bound to a
/// method has its path as its pattern, and no route's key matches it by the
/// pattern rule. No handler is chosen then.
pub proof fn lemma_not_found_means_no_route<H>(
    routes: Seq<RouteSpec<H>>,
    method: Seq<char>,
    path: Seq<char>,
)
    ensures
        outcome(routes, method, path) is NotFound <==> forall|i: int|
            0 <= i < routes.len() ==> (#[trigger] routes[i]).key != route_key(method, path)
                && routes[i].key != path && !(routes[i].guard is Some && key_pattern(
                routes[i].key,
            ) == path) && matched(routes[i].key, path, method) is None,
{
    let by_key = |r: RouteSpec<H>| r.key == route_key(method, path);
    let by_path = |r: RouteSpec<H>| r.key == path;
    let by_guard = |r: RouteSpec<H>| r.guard is Some && key_pattern(r.key) == path;
    let by_rule = |r: RouteSpec<H>| matched(r.key, path, method) is Some;
    lemma_position_is_first(routes, by_key);
    lemma_position_is_first(routes, by_path);
    lemma_position_is_first(routes, by_guard);
    lemma_position_is_first(routes, by_rule);
    if outcome(routes, method, path) is NotFound {
        assert forall|i: int| 0 <= i < routes.len() implies (#[trigger] routes[i]).key
            != route_key(method, path) && routes[i].key != path && !(routes[i].guard is Some
            && key_pattern(routes[i].key) == path) && matched(routes[i].key, path, method)
            is None by {
            assert(!by_key(routes[i]));
            assert(!by_path(routes[i]));
            assert(!by_guard(routes[i]));
            assert(!by_rule(routes[i]));
        }
    } else {
        let (i, _) = resolve(routes, method, path).unwrap();
        assert(by_key(routes[i]) || by_path(routes[i]) || by_guard(routes[i]) || by_rule(
            routes[i],
        ));
    }
}

/// A request resolves to a registered route only: the place that `resolve`
/// gives lies in the table, and a handler that the dispatcher chooses is the
/// handler of a route that admits the request's method.
pub proof fn lemma_resolved_route_is_registered<H>(
    routes: Seq<RouteSpec<H>>,
    method: Seq<char>,
    path: Seq<char>,
)
    ensures
        resolve(routes, method, path) matches Some((i, _)) ==> 0 <= i < routes.len(),
        outcome(routes, method, path) matches Outcome::Handle { handler, .. } ==> exists|i: int|
            0 <= i < routes.len() && (#[trigger] routes[i]).handler == handler && admits(
                routes[i].guard,
                method,
            ),
{
    lemma_position_is_first(routes, |r: RouteSpec<H>| r.key == route_key(method, path));
    lemma_position_is_first(routes, |r: RouteSpec<H>| r.key == path);
    lemma_position_is_first(
        routes,
        |r: RouteSpec<H>| r.guard is Some && key_pattern(r.key) == path,
    );
    lemma_position_is_first(routes, |r: RouteSpec<H>| matched(r.key, path, method) is Some);
    if resolve(routes, method, path) is Some {
        let (i, _) = resolve(routes, method, path).unwrap();
        if admits(routes[i].guard, method) {
            assert(routes[i].handler == outcome(routes, method, path)->handler);
        }
    }
}

/// A route that a method helper registered refuses a request of another
/// method that finds it by an exact lookup of its key or of its path: the
/// outcome is "method not allowed", whatever other routes there are, and no
/// pattern is tried.
pub proof fn lemma_exact_route_refuses_other_method<H>(
    routes: Seq<RouteSpec<H>>,
    method: Seq<char>,
    path: Seq<char>,
    i: int,
)
    requires
        find_key(routes, route_key(method, path)) == Some(i) || (find_key(
            routes,
            route_key(method, path),
        ) is None && find_key(routes, path) == Some(i)),
        routes[i].guard matches Some(m) && m.token() != method,
    ensures
        outcome(routes, method, path) is MethodNotAllowed,
{
}

/// A path that is registered through method helpers only, and not for the
/// method of the request, is refused: where no route has the request's key or
/// its path as its key, some route bound to a method has the path as its
/// pattern, and every such route is bound to another method than the
/// request's, the outcome is "method not allowed". The routes that the
/// pattern rule would match play no part.
pub proof fn lemma_helper_path_refuses_other_method<H>(
    routes: Seq<RouteSpec<H>>,
    method: Seq<char>,
    path: Seq<char>,
    i: int,
)
    requires
        find_key(routes, route_key(method, path)) is None,
        find_key(routes, path) is None,
        0 <= i < routes.len(),
        routes[i].guard is Some,
        key_pattern(routes[i].key) == path,
        forall|j: int|
            0 <= j < routes.len() && (#[trigger] routes[j]).guard is Some && key_pattern(
                routes[j].key,
            ) == path ==> !admits(routes[j].guard, method),
    ensures
        outcome(routes, method, path) is MethodNotAllowed,
{
    let by_guard = |r: RouteSpec<H>| r.guard is Some && key_pattern(r.key) == path;
    lemma_position_is_first(routes, by_guard);
    assert(by_guard(routes[i]));
}

/// After `get` or `post` registered a path, a request of another method for
/// that very path is refused, whatever patterns are registered beside it:
/// this holds where the table then has no route under the request's key or
/// under the path alone, and no route bound to the request's method has the
/// path as its pattern, which is to say that the path is registered through
/// method helpers only, and for other methods.
pub proof fn lemma_helper_registration_refuses_other_method<H>(
    routes: Seq<RouteSpec<H>>,
    helper: Method,
    path: Seq<char>,
    handler: H,
    method: Seq<char>,
)
    requires
        distinct_keys(routes),
        helper == Method::Get || helper == Method::Post,
        method != helper.token(),
        ({
            let after = registered(
                routes,
                (RouteSpec {
                    key: route_key(helper.token(), path),
                    guard: Some(helper),
                    handler: handler,
                }),
            );
            &&& find_key(after, route_key(method, path)) is None
            &&& find_key(after, path) is None
            &&& forall|j: int|
                0 <= j < after.len() && (#[trigger] after[j]).guard is Some && key_pattern(
                    after[j].key,
                ) == path ==> !admits(after[j].guard, method)
        }),
    ensures
        outcome(
            registered(
                routes,
                (RouteSpec {
                    key: route_key(helper.token(), path),
                    guard: Some(helper),
                    handler: handler,
                }),
            ),
            method,
            path,
        ) is MethodNotAllowed,
{
    let route = RouteSpec {
        key: route_key(helper.token(), path),
        guard: Some(helper),
        handler: handler,
    };
    let after = registered(routes, route);
    lemma_registered_is_the_one(routes, route);
    lemma_position_is_first(after, |r: RouteSpec<H>| r.key == route.key);
    lemma_key_carries_method(helper, path);
    let i = find_key(after, route.key)->0;
    lemma_helper_path_refuses_other_method(after, method, path, i);
}

/// The key that a method helper builds carries its method: among `GET`,
/// `POST`, `PUT` and `DELETE`, the key of `method` and `pattern` is read back
/// as that method and that pattern.
pub proof fn lemma_key_carries_method(method: Method, pattern: Seq<char>)
    requires
        method == Method::Get || method == Method::Post || method == Method::Put || method
            == Method::Delete,
    ensures
        key_method(route_key(method.token(), pattern)) == Some(method),
        key_pattern(route_key(method.token(), pattern)) == pattern,
{
    reveal_strlit("GET ");
    reveal_strlit("GET");
    reveal_strlit("POST ");
    reveal_strlit("POST");
    reveal_strlit("PUT ");
    reveal_strlit("PUT");
    reveal_strlit("DELETE ");
    reveal_strlit("DELETE");
    reveal_strlit(" ");
    let key = route_key(method.token(), pattern);
    let n = method.token().len() as int + 1;
    assert(key.len() == n + pattern.len());
    assert(key[0] == method.token()[0]);
    assert(key[1] == method.token()[1]);
    if "GET "@.is_prefix_of(key) {
        assert(key.subrange(0, 4)[0] == 'G' && key.subrange(0, 4)[1] == 'E');
    }
    if "POST "@.is_prefix_of(key) {
        assert(key.subrange(0, 5)[0] == 'P' && key.subrange(0, 5)[1] == 'O');
    }
    if "PUT "@.is_prefix_of(key) {
        assert(key.subrange(0, 4)[0] == 'P' && key.subrange(0, 4)[1] == 'U');
    }
    match method {
        Method::Get => {
            assert("GET "@ =~= key.subrange(0, n));
        },
        Method::Post => {
            assert("POST "@ =~= key.subrange(0, n));
        },
        Method::Put => {
            assert("PUT "@ =~= key.subrange(0, n));
        },
        _ => {
            assert("DELETE "@ =~= key.subrange(0, n));
        },
    }
    assert(key.skip(n) =~= pattern);
}

/// The pattern rule never hands a request of one method to a route that was
/// registered for another: a key built from `GET`, `POST`, `PUT` or `DELETE`
/// and a pattern matches requests of that method only, and matches them as
/// the pattern matches their path.
pub proof fn lemma_method_route_matches_own_method(
    method: Method,
    pattern: Seq<char>,
    request_method: Seq<char>,
    path: Seq<char>,
)
    requires
        method == Method::Get || method == Method::Post || method == Method::Put || method
            == Method::Delete,
    ensures
        matched(route_key(method.token(), pattern), path, request_method) == if request_method
            == method.token() {
            match_path(pattern, path)
        } else {
            None
        },
{
    lemma_key_carries_method(method, pattern);
}

/// What the dispatcher decides for a request.
pub enum Dispatch<'a, H> {
    /// The request goes to `handler`, with `params`.
    Handle { handler: &'a H, params: RouteParams },
    /// A route was found, and it refuses the request's method.
    MethodNotAllowed,
    /// No route was found.
    NotFound,
}

impl<'a, H> View for Dispatch<'a, H> {
    type V = Outcome<H>;

    open spec fn view(&self) -> Outcome<H> {
        match self {
            Dispatch::Handle { handler, params } => Outcome::Handle {
                handler: **handler,
                params: params@,
            },
            Dispatch::MethodNotAllowed => Outcome::MethodNotAllowed,
            Dispatch::NotFound => Outcome::NotFound,
        }
    }
}

/// An application: its routes and its settings.
pub struct FlaskApp<H> {
    routes: RouteTable<H>,
    config: FlaskConfig,
}

impl<H> View for FlaskApp<H> {
    type V = Seq<RouteSpec<H>>;

    /// The routes in the order in which their keys were first registered.
    closed spec fn view(&self) -> Seq<RouteSpec<H>> {
        self.routes@
    }
}

/// Decides between a found route and the method of the request.
fn settle<'a, H>(route: &'a Route<H>, params: RouteParams, method: &str) -> (out: Dispatch<'a, H>)
    ensures
        out@ == if admits(route@.guard, method@) {
            Outcome::Handle { handler: route@.handler, params: params@ }
        } else {
            Outcome::MethodNotAllowed
        },
{
    match route.guard {
        Some(m) => {
            if same_str(m.as_str(), method) {
                Dispatch::Handle { handler: &route.handler, params: params }
            } else {
                Dispatch::MethodNotAllowed
            }
        },
        None => Dispatch::Handle { handler: &route.handler, params: params },
    }
}

/// The key for `path` under the method with the token `method`.
fn key_for(method: &str, path: &str) -> (out: String)
    ensures
        out@ == route_key(method@, path@),
{
    let mut key = String::from_str(method);
    key.append(" ");
    key.append(path);
    key
}

impl<H> FlaskApp<H> {
    /// The settings of the application.
    pub closed spec fn spec_config(&self) -> &FlaskConfig {
        &self.config
    }

    /// An application without routes, with the default settings.
    pub fn new() -> (out: Self)
        ensures
            out@ == Seq::<RouteSpec<H>>::empty(),
            !out.config().debug,
            out.config().host@ == "127.0.0.1"@,
            out.config().port == 8080,
    {
        FlaskApp { routes: RouteTable::new(), config: FlaskConfig::default() }
    }

    /// An application without routes, with the given settings.
    pub fn with_config(config: FlaskConfig) -> (out: Self)
        ensures
            out@ == Seq::<RouteSpec<H>>::empty(),
            *out.config() == config,
    {
        FlaskApp { routes: RouteTable::new(), config: config }
    }

    /// The settings of the application.
    #[verifier::when_used_as_spec(spec_config)]
    pub fn config(&self) -> (out: &FlaskConfig)
        ensures
            out == self.spec_config(),
    {
        &self.config
    }

    /// The route table of the application.
    pub fn routes(&self) -> (out: &RouteTable<H>)
        ensures
            out@ == self@,
    {
        &self.routes
    }

    /// Registers `handler` under the key `path`, taken as it is: a pattern
    /// for requests of every method, or a method, a space and a pattern. A
    /// route registered under the same key before is replaced.
    pub fn route(&mut self, path: &str, handler: H)
        ensures
            final(self)@ == registered(
                old(self)@,
                (RouteSpec { key: path@, guard: None, handler: handler }),
            ),
            distinct_keys(final(self)@),
            final(self).config() == old(self).config(),
    {
        self.routes.register(String::from_str(path), None, handler);
    }

    /// Registers `handler` for requests of `method` under `pattern`. A route
    /// registered for the same method and pattern before is replaced. The
    /// pattern rule reads no other methods out of a key than `GET`, `POST`,
    /// `PUT` and `DELETE`: a route of another method is found by the exact
    /// lookup of its method and path only.
    pub fn register(&mut self, method: Method, pattern: &str, handler: H)
        ensures
            final(self)@ == registered(
                old(self)@,
                (RouteSpec {
                    key: route_key(method.token(), pattern@),
                    guard: None,
                    handler: handler,
                }),
            ),
            distinct_keys(final(self)@),
            final(self).config() == old(self).config(),
    {
        self.routes.register(key_for(method.as_str(), pattern), None, handler);
    }

    /// Registers `handler` for `GET` requests under the pattern `path`. The
    /// route refuses a request of another method that reaches it; a request
    /// for exactly `path` reaches it where no route has the request's key or
    /// its path as its key.
    pub fn get(&mut self, path: &str, handler: H)
        ensures
            final(self)@ == registered(
                old(self)@,
                (RouteSpec {
                    key: route_key(Method::Get.token(), path@),
                    guard: Some(Method::Get),
                    handler: handler,
                }),
            ),
            distinct_keys(final(self)@),
            final(self).config() == old(self).config(),
    {
        self.routes.register(key_for(Method::Get.as_str(), path), Some(Method::Get), handler);
    }

    /// Registers `handler` for `POST` requests under the pattern `path`. The
    /// route refuses a request of another method that reaches it; a request
    /// for exactly `path` reaches it where no route has the request's key or
    /// its path as its key.
    pub fn post(&mut self, path: &str, handler: H)
        ensures
            final(self)@ == registered(
                old(self)@,
                (RouteSpec {
                    key: route_key(Method::Post.token(), path@),
                    guard: Some(Method::Post),
                    handler: handler,
                }),
            ),
            distinct_keys(final(self)@),
            final(self).config() == old(self).config(),
    {
        self.routes.register(key_for(Method::Post.as_str(), path), Some(Method::Post), handler);
    }

    /// Resolves a request of `method` for `path`: to the handler of the route
    /// that it resolves to, with the parameters bound on the way; to a refusal
    /// where that route is bound to another method; or to no route at all.
    pub fn dispatch<'a>(&'a self, method: &str, path: &str) -> (out: Dispatch<'a, H>)
        ensures
            out@ == outcome(self@, method@, path@),
            distinct_keys(self@),
    {
        let key = key_for(method, path);
        match self.routes.lookup_exact(key.as_str()) {
            Some(route) => {
                return settle(route, extract_path_params(path, path), method);
            },
            None => {},
        }
        match self.routes.lookup_exact(path) {
            Some(route) => {
                return settle(route, extract_path_params(path, path), method);
            },
            None => {},
        }
        let routes = self.routes.iterate();
        let ghost bound_to_path = |r: RouteSpec<H>| r.guard is Some && key_pattern(r.key) == path@;
        let mut k: usize = 0;
        while k < routes.len()
            invariant
                k <= routes@.len(),
                views(routes@) == self@,
                distinct_keys(self@),
                find_key(self@, route_key(method@, path@)) is None,
                find_key(self@, path@) is None,
                bound_to_path == (|r: RouteSpec<H>| r.guard is Some && key_pattern(r.key)
                    == path@),
                forall|j: int| 0 <= j < k ==> !bound_to_path(#[trigger] self@[j]),
            decreases routes@.len() - k,
        {
            proof {
                assert(self@[k as int] == routes@[k as int]@);
            }
            let guarded: bool = match routes[k].guard {
                Some(_) => true,
                None => false,
            };
            if guarded && key_pattern_is(routes[k].key.as_str(), path) {
                proof {
                    assert(bound_to_path(self@[k as int]));
                    lemma_first_is_position(self@, bound_to_path, k as int);
                }
                return settle(&routes[k], extract_path_params(path, path), method);
            }
            k = k + 1;
        }
        proof {
            lemma_none_is_position(self@, bound_to_path);
        }
        let ghost wanted = |r: RouteSpec<H>| matched(r.key, path@, method@) is Some;
        let mut i: usize = 0;
        while i < routes.len()
            invariant
                i <= routes@.len(),
                views(routes@) == self@,
                distinct_keys(self@),
                find_key(self@, route_key(method@, path@)) is None,
                find_key(self@, path@) is None,
                find_guarded(self@, path@) is None,
                wanted == (|r: RouteSpec<H>| matched(r.key, path@, method@) is Some),
                forall|j: int| 0 <= j < i ==> !wanted(#[trigger] self@[j]),
            decreases routes@.len() - i,
        {
            match match_route_pattern(routes[i].key.as_str(), path, method) {
                Some(params) => {
                    proof {
                        assert(self@[i as int] == routes@[i as int]@);
                        assert(wanted(self@[i as int]));
                        lemma_first_is_position(self@, wanted, i as int);
                    }
                    return settle(&routes[i], params, method);
                },
                None => {
                    proof {
                        assert(self@[i as int] == routes@[i as int]@);
                    }
                },
            }
            i = i + 1;
        }
        proof {
            lemma_none_is_position(self@, wanted);
        }
        Dispatch::NotFound
    }
}

impl<H> Default for FlaskApp<H> {
    /// An application without routes, with the default settings.
    fn default() -> (out: Self)
        ensures
            out@ == Seq::<RouteSpec<H>>::empty(),
            !out.config().debug,
            out.config().host@ == "127.0.0.1"@,
            out.config().port == 8080,
    {
        FlaskApp::new()
    }
}

impl<H: Fn(Request, RouteParams) -> Response> FlaskApp<H> {
    /// Whether the handler that `req` resolves to, if any, can be called on
    /// it.
    pub open spec fn serves(&self, req: Request) -> bool {
        match outcome(self@, req.method@, req.path@) {
            Outcome::Handle { handler, params } => forall|p: RouteParams|
                p@ == params ==> call_requires(handler, (req, p)),
            _ => true,
        }
    }

    /// Answers a request. Where it resolves to a handler, the handler is
    /// called once, on the request and the bound parameters, and its response
    /// is the answer; no other handler is called. A request that resolves to a
    /// route bound to another method is answered with status 405, and one
    /// that resolves to no route with status 404.
    pub fn handle_request(&self, req: Request) -> (out: Response)
        requires
            self.serves(req),
        ensures
            match outcome(self@, req.method@, req.path@) {
                Outcome::Handle { handler, params } => exists|p: RouteParams|
                    p@ == params && call_ensures(handler, (req, p), out),
                Outcome::MethodNotAllowed => out@ == method_not_allowed(),
                Outcome::NotFound => out@ == not_found(),
            },
    {
        match self.dispatch(req.method.as_str(), req.path.as_str()) {
            Dispatch::Handle { handler, params } => {
                let ghost p = params;
                let out = handler(req, params);
                proof {
                    assert(p@ == outcome(self@, req.method@, req.path@)->params);
                    assert(call_ensures(*handler, (req, p), out));
                }
                out
            },
            Dispatch::MethodNotAllowed => Response::method_not_allowed(),
            Dispatch::NotFound => Response::not_found(),
        }
    }
}

} // verus!
