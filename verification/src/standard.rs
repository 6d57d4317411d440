use vstd::prelude::*;
use crate::chain::{
    after_passes, after_phase, after_run, before_passes, before_phase, before_run, settled,
    AfterInterceptor, BeforeInterceptor, Chain, ExchangeView, Exit, Routing,
};
use crate::context::{ContextView, RecordView, START_TIME_KEY};
use crate::serve::{Dispatcher, ServedView};
use crate::endpoints::{
    error_record, hello_response, json_response, success_record, Endpoint,
};
use crate::http::{
    forbidden_response, not_found_response, FailureView, Method, RequestView, ResponseView,
};
use crate::mount::{lemma_longest_prefix_wins, MountTable, RoutedView, StaticFiles, Target};
use crate::path::{escapes_root, mount_key, relative, rewritten, trim_trailing, under};
use crate::routes::{Handler, RouteEntry, RouteError, RouteTable};
use crate::timer::{elapsed, stamped, timed, ResponseTime};

verus! {

/// For how many seconds a client may cache a file of the standard static
/// root.
pub const STATIC_CACHE_SECS: u64 = 600;

/// The standard routes: `GET /json`, `GET /error` and `GET /hello`.
pub open spec fn standard_route_map() -> Map<(Method, Seq<char>), RouteEntry<Endpoint>> {
    Map::<(Method, Seq<char>), RouteEntry<Endpoint>>::empty().insert(
        (Method::Get, "/json"@),
        RouteEntry { name: "json"@, handler: Endpoint::Json },
    ).insert(
        (Method::Get, "/error"@),
        RouteEntry { name: "error"@, handler: Endpoint::Error },
    ).insert((Method::Get, "/hello"@), RouteEntry { name: "hello"@, handler: Endpoint::Hello })
}

/// Whether `dispatcher` is the standard one: the standard routes mounted
/// at the root, the static root `static` mounted at `/static/` with the
/// standard cache lifetime, and the response timer linked before and
/// after.
pub open spec fn is_standard(dispatcher: Dispatcher<Endpoint, ResponseTime, ResponseTime>) -> bool {
    let mounts = dispatcher.mounts()@;
    &&& mounts.dom() == set![Seq::<char>::empty(), "/static"@]
    &&& mounts[Seq::<char>::empty()] matches Target::Routes(table) && table@
        == standard_route_map()
    &&& mounts["/static"@] matches Target::Files(files) && files.root@ == "static"@
        && files.cache_secs == STATIC_CACHE_SECS
    &&& dispatcher.chain().befores() == seq![ResponseTime]
    &&& dispatcher.chain().afters() == seq![ResponseTime]
}

/// Where the standard dispatcher sends a request: what lies under
/// `/static` to the static root, by its path below `/static`; everything
/// else to the standard routes, by its method and whole path.
pub open spec fn standard_routing(request: RequestView) -> RoutedView<Endpoint> {
    if under("/static"@, request.path) {
        let below = relative(rewritten("/static"@, request.path));
        if escapes_root(below) {
            RoutedView::Forbidden
        } else {
            RoutedView::File { root: "static"@, relative: below, cache_secs: STATIC_CACHE_SECS }
        }
    } else {
        let rest = rewritten(Seq::<char>::empty(), request.path);
        if standard_route_map().dom().contains((request.method, rest)) {
            RoutedView::Handler {
                handler: standard_route_map()[(request.method, rest)].handler,
                request: RequestView { method: request.method, path: rest },
            }
        } else {
            RoutedView::NotFound
        }
    }
}

/// Builds the standard routes.
pub fn standard_routes() -> (result: Result<RouteTable<Endpoint>, RouteError>)
    ensures
        result matches Ok(table) && table@ == standard_route_map(),
{
    proof {
        reveal_strlit("/json");
        reveal_strlit("/error");
        reveal_strlit("/hello");
        assert("/hello"@[1] != "/error"@[1]);
    }
    let mut table = RouteTable::new();
    match table.register(Method::Get, "/json", Endpoint::Json, "json") {
        Ok(_) => {},
        Err(e) => {
            return Err(e);
        },
    }
    match table.register(Method::Get, "/error", Endpoint::Error, "error") {
        Ok(_) => {},
        Err(e) => {
            return Err(e);
        },
    }
    match table.register(Method::Get, "/hello", Endpoint::Hello, "hello") {
        Ok(_) => {},
        Err(e) => {
            return Err(e);
        },
    }
    Ok(table)
}

proof fn lemma_standard_keys()
    ensures
        mount_key("/"@) == Seq::<char>::empty(),
        mount_key("/static/"@) == "/static"@,
        "/static"@.len() == 7,
{
    reveal_strlit("/");
    reveal_strlit("/static/");
    reveal_strlit("/static");
    reveal_with_fuel(trim_trailing, 3);
    assert("/"@.drop_last() =~= Seq::<char>::empty());
    assert("/static/"@.drop_last() =~= "/static"@);
}

/// Builds the standard dispatcher.
pub fn standard() -> (result: Result<Dispatcher<Endpoint, ResponseTime, ResponseTime>, RouteError>)
    ensures
        result matches Ok(dispatcher) && is_standard(dispatcher),
{
    let routes = match standard_routes() {
        Ok(table) => table,
        Err(e) => {
            return Err(e);
        },
    };
    let mut mounts = MountTable::new();
    mounts.mount("/", Target::Routes(routes));
    mounts.mount("/static/", Target::Files(StaticFiles::new("static").cache(STATIC_CACHE_SECS)));
    let mut chain = Chain::new();
    chain.link_before(ResponseTime);
    chain.link_after(ResponseTime);
    let dispatcher = Dispatcher::new(mounts, chain);
    proof {
        lemma_standard_keys();
        assert(dispatcher.mounts()@.dom() =~= set![Seq::<char>::empty(), "/static"@]);
        assert(dispatcher.chain().befores() =~= seq![ResponseTime]);
        assert(dispatcher.chain().afters() =~= seq![ResponseTime]);
    }
    Ok(dispatcher)
}

/// A chain whose only before-interceptor is the response timer lets every
/// request pass and stores a clock reading as its start time.
pub proof fn lemma_timer_stamps<A: AfterInterceptor>(
    chain: Chain<ResponseTime, A>,
    request: RequestView,
    start: ContextView,
    end: ContextView,
    outcome: Option<FailureView>,
)
    requires
        chain.befores() == seq![ResponseTime],
        before_phase(chain.befores(), request, start, end, outcome),
    ensures
        outcome is None,
        exists|now: u64| end == #[trigger] stamped(start, now),
{
    let trail = choose|trail: Seq<ContextView>| #[trigger]
        before_run(chain.befores(), request, start, end, outcome, trail);
    if outcome is None {
        assert(before_passes(chain.befores(), request, trail, 0));
    }
}

/// A chain whose only after-interceptor is the response timer, run on a
/// context with a start time, hands the response on as it was and emits
/// one record: the time from the start to some clock reading, and the
/// path of the request as it came in.
pub proof fn lemma_timer_finishes<B: BeforeInterceptor>(
    chain: Chain<B, ResponseTime>,
    request: RequestView,
    mid: ContextView,
    routing: Routing,
    inner: ResponseView,
    exchange: ExchangeView,
)
    requires
        chain.afters() == seq![ResponseTime],
        mid.values.dom().contains(START_TIME_KEY),
        chain.finishes(request, mid, routing, inner, exchange),
    ensures
        exchange.response == inner,
        exchange.exit == Exit::Sent,
        exchange.routing == routing,
        exists|now: u64|
            exchange.records == mid.records.push(
                RecordView {
                    elapsed_ns: #[trigger] elapsed(mid.values[START_TIME_KEY], now),
                    path: request.path,
                },
            ),
{
    let (end, outcome) = choose|end: ContextView, outcome: Result<ResponseView, FailureView>| #[trigger]
        after_phase(chain.afters(), request, mid, inner, end, outcome) && exchange == settled(
            routing,
            outcome,
            end,
        );
    let trail = choose|trail: Seq<(ContextView, ResponseView)>| #[trigger]
        after_run(chain.afters(), request, mid, inner, end, outcome, trail);
    if outcome is Ok {
        assert(after_passes(chain.afters(), request, trail, 0));
        let now = choose|now: u64|
            trail[1].0 == #[trigger] timed(mid, request.path, mid.values[START_TIME_KEY], now);
        assert(exchange.records == mid.records.push(
            RecordView { elapsed_ns: elapsed(mid.values[START_TIME_KEY], now), path: request.path },
        ));
    }
}

/// A record covers what happened between the two clock readings: if the
/// clock advanced by at least `duration` nanoseconds, the elapsed time is
/// at least `duration`.
pub proof fn lemma_elapsed_covers(start: u64, now: u64, duration: u64)
    requires
        start + duration <= now,
    ensures
        elapsed(start, now) >= duration,
{
}

/// The standard dispatcher routes as `standard_routing` says.
pub proof fn lemma_standard_routing(
    dispatcher: Dispatcher<Endpoint, ResponseTime, ResponseTime>,
    request: RequestView,
)
    requires
        is_standard(dispatcher),
    ensures
        dispatcher.mounts().spec_route(request) == standard_routing(request),
{
    let table = dispatcher.mounts();
    let root = Seq::<char>::empty();
    lemma_standard_keys();
    if under("/static"@, request.path) {
        lemma_longest_prefix_wins(table, request, "/static"@);
    } else {
        lemma_longest_prefix_wins(table, request, root);
    }
}

/// What the standard dispatcher does with a request, by where the request
/// is routed. No request fails. A request for a static file stops in
/// front of the lookup, with its start time stored. Every other request
/// is sent: a routed one with an answer of its handler to the rewritten
/// request, an unrouted one with the not-found response, one that would
/// leave the static root with the forbidden response; and for each
/// exactly one record is emitted, with the path as it came in.
pub proof fn lemma_standard_serves(
    dispatcher: Dispatcher<Endpoint, ResponseTime, ResponseTime>,
    request: RequestView,
    served: ServedView,
)
    requires
        is_standard(dispatcher),
        dispatcher.serves(request, served),
    ensures
        match standard_routing(request) {
            RoutedView::File { root, relative, cache_secs } => {
                &&& served matches ServedView::NeedsFile(pending)
                &&& pending.request == request
                &&& pending.root == root
                &&& pending.relative == relative
                &&& pending.cache_secs == cache_secs
                &&& pending.context.values.dom().contains(START_TIME_KEY)
                &&& pending.context.records.len() == 0
            },
            RoutedView::Handler { handler, request: rewritten } => {
                &&& served matches ServedView::Done(exchange)
                &&& handler.replies(rewritten, exchange.response)
                &&& exchange.exit == Exit::Sent
                &&& exchange.routing == Routing::Handled
                &&& exchange.records.len() == 1
                &&& exchange.records[0].path == request.path
            },
            RoutedView::NotFound => {
                &&& served matches ServedView::Done(exchange)
                &&& exchange.response == not_found_response()
                &&& exchange.exit == Exit::Sent
                &&& exchange.routing == Routing::NotFound
                &&& exchange.records.len() == 1
                &&& exchange.records[0].path == request.path
            },
            RoutedView::Forbidden => {
                &&& served matches ServedView::Done(exchange)
                &&& exchange.response == forbidden_response()
                &&& exchange.exit == Exit::Sent
                &&& exchange.routing == Routing::Forbidden
                &&& exchange.records.len() == 1
                &&& exchange.records[0].path == request.path
            },
        },
{
    lemma_standard_routing(dispatcher, request);
    let chain = dispatcher.chain();
    let (mid, stopped, inner) = choose|
        mid: ContextView,
        stopped: Option<FailureView>,
        inner: ResponseView,
    | #[trigger] dispatcher.stage(request, mid, stopped, inner, served);
    lemma_timer_stamps(chain, request, ContextView::fresh(), mid, stopped);
    match standard_routing(request) {
        RoutedView::File { .. } => {},
        RoutedView::Handler { .. } => {
            lemma_timer_finishes(chain, request, mid, Routing::Handled, inner, served->Done_0);
        },
        RoutedView::NotFound => {
            lemma_timer_finishes(
                chain,
                request,
                mid,
                Routing::NotFound,
                not_found_response(),
                served->Done_0,
            );
        },
        RoutedView::Forbidden => {
            lemma_timer_finishes(
                chain,
                request,
                mid,
                Routing::Forbidden,
                forbidden_response(),
                served->Done_0,
            );
        },
    }
}

/// Serving `GET /hello` twice gives the same response both times: the
/// greeting, sent.
pub proof fn lemma_hello_is_stable(
    dispatcher: Dispatcher<Endpoint, ResponseTime, ResponseTime>,
    first: ServedView,
    second: ServedView,
)
    requires
        is_standard(dispatcher),
        dispatcher.serves(RequestView { method: Method::Get, path: "/hello"@ }, first),
        dispatcher.serves(RequestView { method: Method::Get, path: "/hello"@ }, second),
    ensures
        first matches ServedView::Done(a) && second matches ServedView::Done(b) && a.response
            == hello_response() && b.response == a.response && a.exit == Exit::Sent && b.exit
            == Exit::Sent,
{
    let request = RequestView { method: Method::Get, path: "/hello"@ };
    reveal_strlit("/hello");
    reveal_strlit("/static");
    reveal_strlit("/json");
    reveal_strlit("/error");
    assert(!under("/static"@, request.path));
    assert(rewritten(Seq::<char>::empty(), request.path) =~= "/hello"@);
    assert(standard_route_map().dom().contains((Method::Get, "/hello"@)));
    lemma_standard_serves(dispatcher, request, first);
    lemma_standard_serves(dispatcher, request, second);
}

/// Serving `GET /json` gives the success record and `GET /error` the
/// error record: each as JSON, with status 200, sent, and the same every
/// time.
pub proof fn lemma_json_is_served(
    dispatcher: Dispatcher<Endpoint, ResponseTime, ResponseTime>,
    json: ServedView,
    error: ServedView,
)
    requires
        is_standard(dispatcher),
        dispatcher.serves(RequestView { method: Method::Get, path: "/json"@ }, json),
        dispatcher.serves(RequestView { method: Method::Get, path: "/error"@ }, error),
    ensures
        json matches ServedView::Done(a) && a.response == json_response(success_record())
            && a.response.status == 200 && a.response.content_type == "application/json"@
            && a.exit == Exit::Sent,
        error matches ServedView::Done(b) && b.response == json_response(error_record())
            && b.response.status == 200 && b.response.content_type == "application/json"@
            && b.exit == Exit::Sent,
{
    let first = RequestView { method: Method::Get, path: "/json"@ };
    let second = RequestView { method: Method::Get, path: "/error"@ };
    reveal_strlit("/hello");
    reveal_strlit("/static");
    reveal_strlit("/json");
    reveal_strlit("/error");
    assert("/hello"@[1] != "/error"@[1]);
    assert(!under("/static"@, first.path));
    assert(!under("/static"@, second.path));
    assert(rewritten(Seq::<char>::empty(), first.path) =~= "/json"@);
    assert(rewritten(Seq::<char>::empty(), second.path) =~= "/error"@);
    assert(standard_route_map().dom().contains((Method::Get, "/json"@)));
    assert(standard_route_map().dom().contains((Method::Get, "/error"@)));
    lemma_standard_serves(dispatcher, first, json);
    lemma_standard_serves(dispatcher, second, error);
}

} // verus!
