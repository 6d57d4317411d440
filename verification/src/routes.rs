use vstd::prelude::*;
use crate::http::{not_found_response, Method, Request, RequestView, Response, ResponseView};

verus! {

/// Something that answers a request. `replies` says which responses the
/// handler may give to a request; `handle` gives one of them. A handler
/// that does not say which responses it gives may give any.
pub trait Handler {
    /// Whether `response` is an answer of this handler to `request`.
    open spec fn replies(&self, request: RequestView, response: ResponseView) -> bool {
        true
    }

    /// Answers `request`.
    fn handle(&self, request: &Request) -> (response: Response)
        ensures
            self.replies(request@, response@),
    ;
}

/// Why a route could not be registered.
#[derive(Clone, Copy, Debug, PartialEq, Eq, Structural)]
pub enum RouteError {
    /// The table already holds a route for this method and pattern.
    DuplicateRoute,
}

/// What a route table holds under a method and a pattern.
pub struct RouteEntry<H> {
    pub name: Seq<char>,
    pub handler: H,
}

struct Route<H> {
    method: Method,
    pattern: String,
    name: String,
    handler: H,
}

impl<H> Route<H> {
    spec fn key(self) -> (Method, Seq<char>) {
        (self.method, self.pattern@)
    }

    spec fn entry(self) -> RouteEntry<H> {
        RouteEntry { name: self.name@, handler: self.handler }
    }
}

/// The map that a list of routes stands for; of two routes with one key the
/// earlier counts.
spec fn table_of<H>(routes: Seq<Route<H>>) -> Map<(Method, Seq<char>), RouteEntry<H>>
    decreases routes.len(),
{
    if routes.len() == 0 {
        Map::empty()
    } else {
        let before = table_of(routes.drop_last());
        let last = routes.last();
        if before.dom().contains(last.key()) {
            before
        } else {
            before.insert(last.key(), last.entry())
        }
    }
}

proof fn lemma_absent<H>(routes: Seq<Route<H>>, key: (Method, Seq<char>))
    requires
        forall|j: int| 0 <= j < routes.len() ==> routes[j].key() != key,
    ensures
        !table_of(routes).dom().contains(key),
    decreases routes.len(),
{
    if routes.len() > 0 {
        lemma_absent(routes.drop_last(), key);
    }
}

proof fn lemma_first<H>(routes: Seq<Route<H>>, i: int, key: (Method, Seq<char>))
    requires
        0 <= i < routes.len(),
        routes[i].key() == key,
        forall|j: int| 0 <= j < i ==> routes[j].key() != key,
    ensures
        table_of(routes).dom().contains(key),
        table_of(routes)[key] == routes[i].entry(),
    decreases routes.len(),
{
    if i == routes.len() - 1 {
        lemma_absent(routes.drop_last(), key);
    } else {
        lemma_first(routes.drop_last(), i, key);
    }
}

/// Maps a method and an exact path to a handler and the route's name. No
/// two routes of a table share a method and a pattern.
pub struct RouteTable<H> {
    routes: Vec<Route<H>>,
}

impl<H> View for RouteTable<H> {
    type V = Map<(Method, Seq<char>), RouteEntry<H>>;

    closed spec fn view(&self) -> Map<(Method, Seq<char>), RouteEntry<H>> {
        table_of(self.routes@)
    }
}

impl<H> RouteTable<H> {
    #[verifier::type_invariant]
    spec fn distinct(&self) -> bool {
        forall|i: int, j: int|
            0 <= i < j < self.routes@.len() ==> #[trigger] self.routes@[i].key()
                != #[trigger] self.routes@[j].key()
    }

    /// The handler registered for `method` and exactly `path`, if any.
    pub open spec fn spec_resolve(&self, method: Method, path: Seq<char>) -> Option<&H> {
        if self@.dom().contains((method, path)) {
            Some(&self@[(method, path)].handler)
        } else {
            None
        }
    }

    /// Whether `response` answers `request` through this table: it is an
    /// answer of the resolved handler, or the not-found response where no
    /// route matches.
    pub open spec fn answers(&self, request: RequestView, response: ResponseView) -> bool
        where H: Handler
    {
        match self.spec_resolve(request.method, request.path) {
            Some(handler) => handler.replies(request, response),
            None => response == not_found_response(),
        }
    }

    /// A table without routes.
    pub fn new() -> (table: Self)
        ensures
            table@ == Map::<(Method, Seq<char>), RouteEntry<H>>::empty(),
    {
        RouteTable { routes: Vec::new() }
    }

    /// The number of routes.
    pub fn len(&self) -> (n: usize)
        ensures
            n == self@.dom().len(),
    {
        proof {
            use_type_invariant(self);
            lemma_count(self.routes@);
        }
        self.routes.len()
    }

    fn position(&self, method: Method, pattern: &String) -> (found: Option<usize>)
        ensures
            match found {
                Some(i) => i < self.routes@.len() && self.routes@[i as int].key() == (
                    method,
                    pattern@,
                ) && forall|j: int| 0 <= j < i ==> self.routes@[j].key() != (method, pattern@),
                None => forall|j: int|
                    0 <= j < self.routes@.len() ==> self.routes@[j].key() != (method, pattern@),
            },
    {
        let mut i: usize = 0;
        while i < self.routes.len()
            invariant
                i <= self.routes@.len(),
                forall|j: int| 0 <= j < i ==> self.routes@[j].key() != (method, pattern@),
            decreases self.routes@.len() - i,
        {
            let route = &self.routes[i];
            if route.method == method && route.pattern == *pattern {
                return Some(i);
            }
            i = i + 1;
        }
        None
    }

    /// Registers `handler` under `method` and `pattern`, with a name for the
    /// route. A second route for the same method and pattern is refused and
    /// leaves the table as it was.
    pub fn register(&mut self, method: Method, pattern: &str, handler: H, name: &str) -> (result:
        Result<(), RouteError>)
        ensures
            old(self)@.dom().contains((method, pattern@)) ==> result == Err::<(), RouteError>(
                RouteError::DuplicateRoute,
            ) && final(self)@ == old(self)@,
            !old(self)@.dom().contains((method, pattern@)) ==> result == Ok::<(), RouteError>(())
                && final(self)@ == old(self)@.insert(
                (method, pattern@),
                RouteEntry { name: name@, handler },
            ),
    {
        proof {
            use_type_invariant(&*self);
        }
        let pattern = pattern.to_owned();
        match self.position(method, &pattern) {
            Some(i) => {
                proof {
                    lemma_first(self.routes@, i as int, (method, pattern@));
                }
                Err(RouteError::DuplicateRoute)
            },
            None => {
                proof {
                    lemma_absent(self.routes@, (method, pattern@));
                }
                let ghost before = self.routes@;
                let mut routes: Vec<Route<H>> = Vec::new();
                std::mem::swap(&mut routes, &mut self.routes);
                routes.push(Route { method, pattern, name: name.to_owned(), handler });
                assert(routes@.drop_last() == before);
                self.routes = routes;
                Ok(())
            },
        }
    }

    /// Looks up the handler registered for `method` and exactly `path`.
    pub fn resolve(&self, method: Method, path: &str) -> (found: Option<&H>)
        ensures
            found == self.spec_resolve(method, path@),
    {
        let path = path.to_owned();
        match self.position(method, &path) {
            Some(i) => {
                proof {
                    lemma_first(self.routes@, i as int, (method, path@));
                }
                Some(&self.routes[i].handler)
            },
            None => {
                proof {
                    lemma_absent(self.routes@, (method, path@));
                }
                None
            },
        }
    }

    /// The name of the route registered for `method` and exactly `path`.
    pub fn name_of(&self, method: Method, path: &str) -> (found: Option<String>)
        ensures
            match found {
                Some(name) => self@.dom().contains((method, path@)) && name@ == self@[(
                    method,
                    path@,
                )].name,
                None => !self@.dom().contains((method, path@)),
            },
    {
        let path = path.to_owned();
        match self.position(method, &path) {
            Some(i) => {
                proof {
                    lemma_first(self.routes@, i as int, (method, path@));
                }
                Some(self.routes[i].name.clone())
            },
            None => {
                proof {
                    lemma_absent(self.routes@, (method, path@));
                }
                None
            },
        }
    }

    /// Answers `request` with the handler registered for its method and
    /// exact path, or with the not-found response.
    pub fn dispatch(&self, request: &Request) -> (response: Response) where H: Handler
        ensures
            self.answers(request@, response@),
    {
        match self.resolve(request.method, request.path.as_str()) {
            Some(handler) => handler.handle(request),
            None => Response::not_found(),
        }
    }
}

/// A table with pairwise distinct keys holds as many entries as routes.
proof fn lemma_count<H>(routes: Seq<Route<H>>)
    requires
        forall|i: int, j: int|
            0 <= i < j < routes.len() ==> #[trigger] routes[i].key() != #[trigger] routes[j].key(),
    ensures
        table_of(routes).dom().finite(),
        table_of(routes).dom().len() == routes.len(),
    decreases routes.len(),
{
    if routes.len() > 0 {
        let before = routes.drop_last();
        lemma_count(before);
        assert forall|j: int| 0 <= j < before.len() implies before[j].key() != routes.last().key() by {
            assert(before[j] == routes[j]);
        }
        lemma_absent(before, routes.last().key());
    }
}

impl<H: Handler> Handler for RouteTable<H> {
    open spec fn replies(&self, request: RequestView, response: ResponseView) -> bool {
        self.answers(request, response)
    }

    fn handle(&self, request: &Request) -> (response: Response) {
        self.dispatch(request)
    }
}

/// Registering a route makes exactly that method and pattern resolve to the
/// registered handler and leaves every other lookup as it was; an empty
/// table resolves nothing.
pub proof fn lemma_register_then_resolve<H>(
    before: RouteTable<H>,
    after: RouteTable<H>,
    method: Method,
    pattern: Seq<char>,
    entry: RouteEntry<H>,
    other_method: Method,
    other_path: Seq<char>,
)
    requires
        after@ == before@.insert((method, pattern), entry),
    ensures
        after.spec_resolve(method, pattern) == Some(&entry.handler),
        (other_method, other_path) != (method, pattern) ==> after.spec_resolve(
            other_method,
            other_path,
        ) == before.spec_resolve(other_method, other_path),
        before@ == Map::<(Method, Seq<char>), RouteEntry<H>>::empty() ==> before.spec_resolve(
            other_method,
            other_path,
        ) is None,
{
}

} // verus!
