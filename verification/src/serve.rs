use vstd::prelude::*;
use crate::chain::{
    before_phase, lemma_failing_before_stops, stopped_before, AfterInterceptor, BeforeInterceptor,
    Chain, Exchange, ExchangeView, Exit, Routing,
};
use crate::context::{Context, ContextView};
use crate::http::{
    forbidden_response, not_found_response, FailureView, Request, RequestView, Response,
    ResponseView, STATUS_OK,
};
use crate::mount::{MountTable, Routed, RoutedView};
use crate::routes::Handler;

verus! {

/// What a static root found under a relative path.
#[derive(Debug, PartialEq, Eq)]
pub enum Lookup {
    /// A file, with its content type and its bytes.
    Found { content_type: String, bytes: Vec<u8> },
    /// No file.
    NotFound,
    /// No file, but a reply of the root's own: a redirect to a directory,
    /// a note that the client's copy is still good, a refusal.
    Other { status: u16, content_type: String, bytes: Vec<u8> },
}

/// Mathematical model of a [`Lookup`].
pub enum LookupView {
    Found { content_type: Seq<char>, bytes: Seq<u8> },
    NotFound,
    Other { status: u16, content_type: Seq<char>, bytes: Seq<u8> },
}

impl View for Lookup {
    type V = LookupView;

    open spec fn view(&self) -> LookupView {
        match *self {
            Lookup::Found { content_type, bytes } => LookupView::Found {
                content_type: content_type@,
                bytes: bytes@,
            },
            Lookup::NotFound => LookupView::NotFound,
            Lookup::Other { status, content_type, bytes } => LookupView::Other {
                status,
                content_type: content_type@,
                bytes: bytes@,
            },
        }
    }
}

/// The response that a lookup stands for: the file as it was found, the
/// not-found response, or the root's own reply as it is.
pub open spec fn file_reply(lookup: LookupView) -> ResponseView {
    match lookup {
        LookupView::Found { content_type, bytes } => ResponseView {
            status: STATUS_OK,
            content_type,
            body: bytes,
        },
        LookupView::NotFound => not_found_response(),
        LookupView::Other { status, content_type, bytes } => ResponseView {
            status,
            content_type,
            body: bytes,
        },
    }
}

/// Turns what a static root found into a response.
pub fn reply_file(lookup: Lookup) -> (response: Response)
    ensures
        response@ == file_reply(lookup@),
{
    match lookup {
        Lookup::Found { content_type, bytes } => Response { status: STATUS_OK, content_type, body: bytes },
        Lookup::NotFound => Response::not_found(),
        Lookup::Other { status, content_type, bytes } => Response { status, content_type, body: bytes },
    }
}

/// A request that waits for a static root: the file to look up, and the
/// state that the request is resumed with.
pub struct FileRequest {
    request: Request,
    context: Context,
    root: String,
    relative: String,
    cache_secs: u64,
}

/// Mathematical model of a [`FileRequest`].
pub struct FileRequestView {
    pub request: RequestView,
    pub context: ContextView,
    pub root: Seq<char>,
    pub relative: Seq<char>,
    pub cache_secs: u64,
}

impl View for FileRequest {
    type V = FileRequestView;

    closed spec fn view(&self) -> FileRequestView {
        FileRequestView {
            request: self.request@,
            context: self.context@,
            root: self.root@,
            relative: self.relative@,
            cache_secs: self.cache_secs,
        }
    }
}

impl FileRequest {
    /// The root to look the file up in.
    pub fn root(&self) -> (root: &String)
        ensures
            root@ == self@.root,
    {
        &self.root
    }

    /// The path of the file, relative to the root.
    pub fn relative(&self) -> (relative: &String)
        ensures
            relative@ == self@.relative,
    {
        &self.relative
    }

    /// For how many seconds a client may cache the file.
    pub fn cache_secs(&self) -> (secs: u64)
        ensures
            secs == self@.cache_secs,
    {
        self.cache_secs
    }
}

/// How far `serve` came: to the exchange, or to a file that the caller has
/// to look up before the request is resumed.
pub enum Served {
    Done(Exchange),
    NeedsFile(FileRequest),
}

/// Mathematical model of a [`Served`].
pub enum ServedView {
    Done(ExchangeView),
    NeedsFile(FileRequestView),
}

impl View for Served {
    type V = ServedView;

    open spec fn view(&self) -> ServedView {
        match *self {
            Served::Done(exchange) => ServedView::Done(exchange@),
            Served::NeedsFile(pending) => ServedView::NeedsFile(pending@),
        }
    }
}

/// The composition root: a mount table inside a chain of interceptors.
pub struct Dispatcher<H, B, A> {
    mounts: MountTable<H>,
    chain: Chain<B, A>,
}

impl<H: Handler, B: BeforeInterceptor, A: AfterInterceptor> Dispatcher<H, B, A> {
    /// The mount table that requests are routed by.
    pub closed spec fn mounts(&self) -> MountTable<H> {
        self.mounts
    }

    /// The chain that wraps the mount table.
    pub closed spec fn chain(&self) -> Chain<B, A> {
        self.chain
    }

    /// A dispatcher that routes by `mounts` inside `chain`.
    pub fn new(mounts: MountTable<H>, chain: Chain<B, A>) -> (dispatcher: Self)
        ensures
            dispatcher.mounts() == mounts,
            dispatcher.chain() == chain,
    {
        Dispatcher { mounts, chain }
    }

    /// Whether a request that the before-phase left at `mid` with
    /// `stopped`, and that the routed handler, if there is one, answered
    /// with `inner`, may come to `served`.
    pub open spec fn stage(
        &self,
        request: RequestView,
        mid: ContextView,
        stopped: Option<FailureView>,
        inner: ResponseView,
        served: ServedView,
    ) -> bool {
        before_phase(self.chain().befores(), request, ContextView::fresh(), mid, stopped)
            && match stopped {
            Some(failure) => served == ServedView::Done(stopped_before(failure, mid)),
            None => match self.mounts().spec_route(request) {
                RoutedView::Handler { handler, request: rewritten } => {
                    &&& handler.replies(rewritten, inner)
                    &&& served matches ServedView::Done(exchange)
                    &&& self.chain().finishes(request, mid, Routing::Handled, inner, exchange)
                },
                RoutedView::File { root, relative, cache_secs } => served == ServedView::NeedsFile(
                    FileRequestView { request, context: mid, root, relative, cache_secs },
                ),
                RoutedView::NotFound => {
                    &&& served matches ServedView::Done(exchange)
                    &&& self.chain().finishes(
                        request,
                        mid,
                        Routing::NotFound,
                        not_found_response(),
                        exchange,
                    )
                },
                RoutedView::Forbidden => {
                    &&& served matches ServedView::Done(exchange)
                    &&& self.chain().finishes(
                        request,
                        mid,
                        Routing::Forbidden,
                        forbidden_response(),
                        exchange,
                    )
                },
            },
        }
    }

    /// Whether `served` may come back for `request`. The before-phase runs
    /// on a fresh context; its first failure ends the request, and nothing
    /// is routed. Otherwise the mount table routes the request: a handler
    /// answers the rewritten request; a miss gives the not-found response
    /// and a path that leaves its static root the forbidden one, neither
    /// being a failure; and the after-phase runs on that response with the
    /// request as it came in. A request for a static file stops in front
    /// of the lookup.
    pub open spec fn serves(&self, request: RequestView, served: ServedView) -> bool {
        exists|mid: ContextView, stopped: Option<FailureView>, inner: ResponseView| #[trigger]
            self.stage(request, mid, stopped, inner, served)
    }

    /// Takes `request` through the before-phase, the mount table and, but
    /// for a static file, the handler and the after-phase.
    pub fn serve(&self, request: &Request) -> (served: Served)
        ensures
            self.serves(request@, served@),
    {
        let mut context = Context::new();
        match self.chain.run_before(request, &mut context) {
            Err(failure) => {
                let ghost mid = context@;
                let exchange = Exchange {
                    response: failure.to_response(),
                    exit: Exit::BeforeFailed,
                    routing: Routing::Unrouted,
                    records: context.into_records(),
                };
                let served = Served::Done(exchange);
                assert(self.stage(request@, mid, Some(failure@), not_found_response(), served@));
                served
            },
            Ok(_) => {
                let ghost mid = context@;
                match self.mounts.route(request) {
                    Routed::Handler { handler, request: rewritten } => {
                        let inner = handler.handle(&rewritten);
                        let ghost answer = inner@;
                        let served = Served::Done(
                            self.chain.finish(request, context, Routing::Handled, inner),
                        );
                        assert(self.stage(request@, mid, None, answer, served@));
                        served
                    },
                    Routed::File { root, relative, cache_secs } => {
                        let pending = FileRequest {
                            request: Request { method: request.method, path: request.path.clone() },
                            context,
                            root,
                            relative,
                            cache_secs,
                        };
                        let served = Served::NeedsFile(pending);
                        assert(self.stage(request@, mid, None, not_found_response(), served@));
                        served
                    },
                    Routed::NotFound => {
                        let served = Served::Done(
                            self.chain.finish(
                                request,
                                context,
                                Routing::NotFound,
                                Response::not_found(),
                            ),
                        );
                        assert(self.stage(request@, mid, None, not_found_response(), served@));
                        served
                    },
                    Routed::Forbidden => {
                        let served = Served::Done(
                            self.chain.finish(
                                request,
                                context,
                                Routing::Forbidden,
                                Response::forbidden(),
                            ),
                        );
                        assert(self.stage(request@, mid, None, not_found_response(), served@));
                        served
                    },
                }
            },
        }
    }

    /// Resumes a request that waited for a static root: what the root
    /// found becomes the response, and the after-phase runs on it.
    pub fn resume(&self, pending: FileRequest, lookup: Lookup) -> (exchange: Exchange)
        ensures
            self.chain().finishes(
                pending@.request,
                pending@.context,
                Routing::File,
                file_reply(lookup@),
                exchange@,
            ),
    {
        let FileRequest { request, context, root, relative, cache_secs } = pending;
        let inner = reply_file(lookup);
        self.chain.finish(&request, context, Routing::File, inner)
    }
}

/// Short circuit: where a before-interceptor fails on a request whenever
/// it is reached, the request is never routed. It ends at once, stopped
/// in the before-phase; no handler answers and no static root is asked.
pub proof fn lemma_failed_before_is_never_routed<
    H: Handler,
    B: BeforeInterceptor,
    A: AfterInterceptor,
>(dispatcher: Dispatcher<H, B, A>, request: RequestView, k: int, served: ServedView)
    requires
        0 <= k < dispatcher.chain().befores().len(),
        forall|pre: ContextView, post: ContextView, any: Option<FailureView>| #[trigger]
            dispatcher.chain().befores()[k].before_allows(request, pre, post, any) ==> any is Some,
        dispatcher.serves(request, served),
    ensures
        served matches ServedView::Done(exchange) && exchange.exit == Exit::BeforeFailed
            && exchange.routing == Routing::Unrouted,
{
    let (mid, stopped, inner) = choose|
        mid: ContextView,
        stopped: Option<FailureView>,
        inner: ResponseView,
    | #[trigger] dispatcher.stage(request, mid, stopped, inner, served);
    lemma_failing_before_stops(
        dispatcher.chain().befores(),
        request,
        k,
        ContextView::fresh(),
        mid,
        stopped,
    );
}

/// Whatever comes back for a request is consistent: an exchange counts as
/// never routed exactly where the before-phase failed, and an exchange
/// that `serve` completes itself never went to a static root.
pub proof fn lemma_served_is_consistent<H: Handler, B: BeforeInterceptor, A: AfterInterceptor>(
    dispatcher: Dispatcher<H, B, A>,
    request: RequestView,
    served: ServedView,
)
    requires
        dispatcher.serves(request, served),
    ensures
        served matches ServedView::Done(exchange) ==> exchange.routing != Routing::File && (
        exchange.routing == Routing::Unrouted <==> exchange.exit == Exit::BeforeFailed),
        served matches ServedView::NeedsFile(pending) ==> pending.request == request,
{
    let (mid, stopped, inner) = choose|
        mid: ContextView,
        stopped: Option<FailureView>,
        inner: ResponseView,
    | #[trigger] dispatcher.stage(request, mid, stopped, inner, served);
}

} // verus!
