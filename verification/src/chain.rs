use vstd::prelude::*;
use crate::context::{record_views, Context, ContextView, Record, RecordView};
use crate::http::{failure_response, Failure, FailureView, Request, RequestView, Response, ResponseView};
use crate::routes::Handler;

verus! {

/// An interceptor that runs before a request is dispatched. It may change
/// the context, and it lets the request pass or fails. An interceptor that
/// does not say what it does may do any of this.
pub trait BeforeInterceptor {
    /// Whether the interceptor may take the context from `pre` to `post` on
    /// `request` with the given outcome: `None` to go on, or the failure.
    open spec fn before_allows(
        &self,
        request: RequestView,
        pre: ContextView,
        post: ContextView,
        outcome: Option<FailureView>,
    ) -> bool {
        true
    }

    /// Runs the interceptor on `request`.
    fn before(&self, request: &Request, context: &mut Context) -> (result: Result<(), Failure>)
        ensures
            self.before_allows(
                request@,
                old(context)@,
                final(context)@,
                match result {
                    Ok(_) => None,
                    Err(failure) => Some(failure@),
                },
            ),
    ;
}

/// An interceptor that runs after a request was dispatched. It sees the
/// current response, may change the context, and hands on a response or
/// fails. An interceptor that does not say what it does may do any of
/// this.
pub trait AfterInterceptor {
    /// Whether the interceptor may take the context from `pre` to `post` on
    /// `request` and the response `current`, with the given outcome: the
    /// response it hands on, or the failure.
    open spec fn after_allows(
        &self,
        request: RequestView,
        pre: ContextView,
        current: ResponseView,
        post: ContextView,
        outcome: Result<ResponseView, FailureView>,
    ) -> bool {
        true
    }

    /// Runs the interceptor on `request` and the current response.
    fn after(&self, request: &Request, context: &mut Context, response: Response) -> (result:
        Result<Response, Failure>)
        ensures
            self.after_allows(
                request@,
                old(context)@,
                response@,
                final(context)@,
                match result {
                    Ok(next) => Ok(next@),
                    Err(failure) => Err(failure@),
                },
            ),
    ;
}

/// Whether the before-interceptor at `i` lets `request` pass and takes
/// the context from `trail[i]` to `trail[i + 1]`.
pub open spec fn before_passes<B: BeforeInterceptor>(
    befores: Seq<B>,
    request: RequestView,
    trail: Seq<ContextView>,
    i: int,
) -> bool {
    befores[i].before_allows(request, trail[i], trail[i + 1], None)
}

/// Whether `trail` records a run of the before-phase from `start` to `end`
/// with the given outcome. The trail holds the context in front of each
/// interceptor that ran. The interceptors run in registration order; with
/// `None` every one let the request pass, with a failure all in front of
/// one did, that one failed, and none behind it ran.
pub open spec fn before_run<B: BeforeInterceptor>(
    befores: Seq<B>,
    request: RequestView,
    start: ContextView,
    end: ContextView,
    outcome: Option<FailureView>,
    trail: Seq<ContextView>,
) -> bool {
    let passed = trail.len() - 1;
    &&& 0 <= passed <= befores.len()
    &&& trail[0] == start
    &&& forall|i: int| 0 <= i < passed ==> #[trigger] before_passes(befores, request, trail, i)
    &&& match outcome {
        None => passed == befores.len() && end == trail[passed],
        Some(failure) => passed < befores.len() && befores[passed].before_allows(
            request,
            trail[passed],
            end,
            Some(failure),
        ),
    }
}

/// Whether the before-phase may take the context from `start` to `end`
/// with the given outcome: `None` when every interceptor let the request
/// pass, in registration order, or the failure of the first that did not.
pub open spec fn before_phase<B: BeforeInterceptor>(
    befores: Seq<B>,
    request: RequestView,
    start: ContextView,
    end: ContextView,
    outcome: Option<FailureView>,
) -> bool {
    exists|trail: Seq<ContextView>| #[trigger]
        before_run(befores, request, start, end, outcome, trail)
}

/// Whether the after-interceptor at `i` takes the context and the response
/// from `trail[i]` to `trail[i + 1]`.
pub open spec fn after_passes<A: AfterInterceptor>(
    afters: Seq<A>,
    request: RequestView,
    trail: Seq<(ContextView, ResponseView)>,
    i: int,
) -> bool {
    afters[i].after_allows(request, trail[i].0, trail[i].1, trail[i + 1].0, Ok(trail[i + 1].1))
}

/// Whether `trail` records a run of the after-phase that starts with the
/// context `start` and the response `first` and ends with the context
/// `end` and the given outcome. The trail holds the context and the
/// response in front of each interceptor that ran. The interceptors run in
/// registration order, each on the response that the one before it handed
/// on; with a failure all in front of one handed a response on, that one
/// failed, and none behind it ran.
pub open spec fn after_run<A: AfterInterceptor>(
    afters: Seq<A>,
    request: RequestView,
    start: ContextView,
    first: ResponseView,
    end: ContextView,
    outcome: Result<ResponseView, FailureView>,
    trail: Seq<(ContextView, ResponseView)>,
) -> bool {
    let passed = trail.len() - 1;
    &&& 0 <= passed <= afters.len()
    &&& trail[0] == (start, first)
    &&& forall|i: int| 0 <= i < passed ==> #[trigger] after_passes(afters, request, trail, i)
    &&& match outcome {
        Ok(last) => passed == afters.len() && (end, last) == trail[passed],
        Err(failure) => passed < afters.len() && afters[passed].after_allows(
            request,
            trail[passed].0,
            trail[passed].1,
            end,
            Err(failure),
        ),
    }
}

/// Whether the after-phase, started on the response `first`, may end at
/// `end` with the given outcome: the response that the last interceptor
/// handed on, or the failure of the first that failed.
pub open spec fn after_phase<A: AfterInterceptor>(
    afters: Seq<A>,
    request: RequestView,
    start: ContextView,
    first: ResponseView,
    end: ContextView,
    outcome: Result<ResponseView, FailureView>,
) -> bool {
    exists|trail: Seq<(ContextView, ResponseView)>| #[trigger]
        after_run(afters, request, start, first, end, outcome, trail)
}

/// The state in which a request left the chain.
#[derive(Clone, Copy, Debug, PartialEq, Eq, Structural)]
pub enum Exit {
    /// Both phases ran through; the response is what the after-phase
    /// handed on.
    Sent,
    /// A before-interceptor failed; nothing behind it ran.
    BeforeFailed,
    /// An after-interceptor failed; nothing behind it ran.
    AfterFailed,
}

/// How far a request came between the two phases.
#[derive(Clone, Copy, Debug, PartialEq, Eq, Structural)]
pub enum Routing {
    /// The before-phase failed: the request was never dispatched.
    Unrouted,
    /// A handler ran and gave the response.
    Handled,
    /// A static root was asked for a file.
    File,
    /// No mount or route matched; the not-found response took the
    /// handler's place.
    NotFound,
    /// The path would leave its static root; the forbidden response took
    /// the handler's place.
    Forbidden,
}

/// What comes back for one request: the response to send, how the request
/// left the chain, and the records to emit once the reply is sent.
#[derive(Debug, PartialEq, Eq)]
pub struct Exchange {
    pub response: Response,
    pub exit: Exit,
    pub routing: Routing,
    pub records: Vec<Record>,
}

/// Mathematical model of an [`Exchange`].
pub struct ExchangeView {
    pub response: ResponseView,
    pub exit: Exit,
    pub routing: Routing,
    pub records: Seq<RecordView>,
}

impl View for Exchange {
    type V = ExchangeView;

    open spec fn view(&self) -> ExchangeView {
        ExchangeView {
            response: self.response@,
            exit: self.exit,
            routing: self.routing,
            records: record_views(self.records@),
        }
    }
}

/// The exchange of a request stopped by a before-interceptor: the failure
/// is the response, and the request was never dispatched.
pub open spec fn stopped_before(failure: FailureView, end: ContextView) -> ExchangeView {
    ExchangeView {
        response: failure_response(failure),
        exit: Exit::BeforeFailed,
        routing: Routing::Unrouted,
        records: end.records,
    }
}

/// The exchange of a request whose after-phase ended with `outcome` at
/// `end`: the response handed on, or the failure as the response.
pub open spec fn settled(
    routing: Routing,
    outcome: Result<ResponseView, FailureView>,
    end: ContextView,
) -> ExchangeView {
    match outcome {
        Ok(last) => ExchangeView { response: last, exit: Exit::Sent, routing, records: end.records },
        Err(failure) => ExchangeView {
            response: failure_response(failure),
            exit: Exit::AfterFailed,
            routing,
            records: end.records,
        },
    }
}

/// An ordered list of before-interceptors and one of after-interceptors.
/// Both run in the order in which they were linked.
pub struct Chain<B, A> {
    befores: Vec<B>,
    afters: Vec<A>,
}

impl<B, A> Chain<B, A> {
    /// The before-interceptors, in the order in which they run.
    pub closed spec fn befores(&self) -> Seq<B> {
        self.befores@
    }

    /// The after-interceptors, in the order in which they run.
    pub closed spec fn afters(&self) -> Seq<A> {
        self.afters@
    }

    /// A chain without interceptors.
    pub fn new() -> (chain: Self)
        ensures
            chain.befores() == Seq::<B>::empty(),
            chain.afters() == Seq::<A>::empty(),
    {
        Chain { befores: Vec::new(), afters: Vec::new() }
    }

    /// Adds a before-interceptor behind those already linked.
    pub fn link_before(&mut self, interceptor: B)
        ensures
            final(self).befores() == old(self).befores().push(interceptor),
            final(self).afters() == old(self).afters(),
    {
        self.befores.push(interceptor);
    }

    /// Adds an after-interceptor behind those already linked.
    pub fn link_after(&mut self, interceptor: A)
        ensures
            final(self).afters() == old(self).afters().push(interceptor),
            final(self).befores() == old(self).befores(),
    {
        self.afters.push(interceptor);
    }
}

impl<B: BeforeInterceptor, A: AfterInterceptor> Chain<B, A> {
    /// Whether the after-phase may turn the response `inner`, reached with
    /// the context `mid`, into `exchange`.
    pub open spec fn finishes(
        &self,
        request: RequestView,
        mid: ContextView,
        routing: Routing,
        inner: ResponseView,
        exchange: ExchangeView,
    ) -> bool {
        exists|end: ContextView, outcome: Result<ResponseView, FailureView>| #[trigger]
            after_phase(self.afters(), request, mid, inner, end, outcome) && exchange == settled(
                routing,
                outcome,
                end,
            )
    }

    /// Whether a request that the before-phase left at `mid` with
    /// `stopped`, and that `innermost` answered with `inner` if it was
    /// let through, may end in `exchange`.
    pub open spec fn leads<I: Handler>(
        &self,
        request: RequestView,
        innermost: &I,
        mid: ContextView,
        stopped: Option<FailureView>,
        inner: ResponseView,
        exchange: ExchangeView,
    ) -> bool {
        before_phase(self.befores(), request, ContextView::fresh(), mid, stopped) && match stopped {
            Some(failure) => exchange == stopped_before(failure, mid),
            None => innermost.replies(request, inner) && self.finishes(
                request,
                mid,
                Routing::Handled,
                inner,
                exchange,
            ),
        }
    }

    /// Whether `exchange` may come back for `request` when the chain wraps
    /// `innermost`: the before-interceptors run in order on a fresh
    /// context; the first failure ends the request with that failure as
    /// the response; otherwise `innermost` answers and the
    /// after-interceptors run in order on its response.
    pub open spec fn wraps<I: Handler>(
        &self,
        request: RequestView,
        innermost: &I,
        exchange: ExchangeView,
    ) -> bool {
        exists|mid: ContextView, stopped: Option<FailureView>, inner: ResponseView| #[trigger]
            self.leads(request, innermost, mid, stopped, inner, exchange)
    }

    /// Runs the before-interceptors in the order in which they were linked,
    /// up to the first that fails.
    pub fn run_before(&self, request: &Request, context: &mut Context) -> (result: Result<
        (),
        Failure,
    >)
        ensures
            before_phase(
                self.befores(),
                request@,
                old(context)@,
                final(context)@,
                match result {
                    Ok(_) => None,
                    Err(failure) => Some(failure@),
                },
            ),
    {
        let ghost start = context@;
        let ghost mut trail: Seq<ContextView> = seq![start];
        let mut i: usize = 0;
        while i < self.befores.len()
            invariant
                i <= self.befores@.len(),
                start == old(context)@,
                trail.len() == i + 1,
                trail[0] == start,
                trail[i as int] == context@,
                forall|j: int| 0 <= j < i ==> #[trigger] before_passes(self.befores@, request@, trail, j),
            decreases self.befores@.len() - i,
        {
            let ghost seen = trail;
            match self.befores[i].before(request, context) {
                Ok(_) => {
                    proof {
                        trail = seen.push(context@);
                        assert forall|j: int| 0 <= j < i + 1 implies #[trigger] before_passes(
                            self.befores@,
                            request@,
                            trail,
                            j,
                        ) by {
                            if j < i {
                                assert(before_passes(self.befores@, request@, seen, j));
                            }
                        }
                    }
                },
                Err(failure) => {
                    assert(before_run(
                        self.befores@,
                        request@,
                        start,
                        context@,
                        Some(failure@),
                        trail,
                    ));
                    return Err(failure);
                },
            }
            i = i + 1;
        }
        assert(before_run(self.befores@, request@, start, context@, None, trail));
        Ok(())
    }

    /// Runs the after-interceptors in the order in which they were linked,
    /// each on the response that the one before it handed on, up to the
    /// first that fails.
    pub fn run_after(&self, request: &Request, context: &mut Context, response: Response) -> (result:
        Result<Response, Failure>)
        ensures
            after_phase(
                self.afters(),
                request@,
                old(context)@,
                response@,
                final(context)@,
                match result {
                    Ok(last) => Ok(last@),
                    Err(failure) => Err(failure@),
                },
            ),
    {
        let ghost start = context@;
        let ghost first = response@;
        let ghost mut trail: Seq<(ContextView, ResponseView)> = seq![(start, first)];
        let mut current = response;
        let mut i: usize = 0;
        while i < self.afters.len()
            invariant
                i <= self.afters@.len(),
                start == old(context)@,
                first == response@,
                trail.len() == i + 1,
                trail[0] == (start, first),
                trail[i as int] == (context@, current@),
                forall|j: int| 0 <= j < i ==> #[trigger] after_passes(self.afters@, request@, trail, j),
            decreases self.afters@.len() - i,
        {
            let ghost seen = trail;
            match self.afters[i].after(request, context, current) {
                Ok(next) => {
                    proof {
                        trail = seen.push((context@, next@));
                        assert forall|j: int| 0 <= j < i + 1 implies #[trigger] after_passes(
                            self.afters@,
                            request@,
                            trail,
                            j,
                        ) by {
                            if j < i {
                                assert(after_passes(self.afters@, request@, seen, j));
                            }
                        }
                    }
                    current = next;
                },
                Err(failure) => {
                    assert(after_run(
                        self.afters@,
                        request@,
                        start,
                        first,
                        context@,
                        Err(failure@),
                        trail,
                    ));
                    return Err(failure);
                },
            }
            i = i + 1;
        }
        assert(after_run(self.afters@, request@, start, first, context@, Ok(current@), trail));
        Ok(current)
    }

    /// Runs the after-phase on `inner` and settles the exchange: the
    /// response handed on, or the failure of the interceptor that failed.
    pub fn finish(&self, request: &Request, context: Context, routing: Routing, inner: Response) -> (exchange:
        Exchange)
        ensures
            self.finishes(request@, context@, routing, inner@, exchange@),
    {
        let mut context = context;
        let ghost mid = context@;
        let result = self.run_after(request, &mut context, inner);
        let ghost end = context@;
        let records = context.into_records();
        match result {
            Ok(last) => {
                let exchange = Exchange { response: last, exit: Exit::Sent, routing, records };
                assert(after_phase(self.afters(), request@, mid, inner@, end, Ok(last@)));
                exchange
            },
            Err(failure) => {
                let exchange = Exchange {
                    response: failure.to_response(),
                    exit: Exit::AfterFailed,
                    routing,
                    records,
                };
                assert(after_phase(self.afters(), request@, mid, inner@, end, Err(failure@)));
                exchange
            },
        }
    }

    /// Takes `request` through the chain around `innermost`, on a fresh
    /// context.
    pub fn run<I: Handler>(&self, request: &Request, innermost: &I) -> (exchange: Exchange)
        ensures
            self.wraps(request@, innermost, exchange@),
    {
        let mut context = Context::new();
        match self.run_before(request, &mut context) {
            Err(failure) => {
                let ghost mid = context@;
                let exchange = Exchange {
                    response: failure.to_response(),
                    exit: Exit::BeforeFailed,
                    routing: Routing::Unrouted,
                    records: context.into_records(),
                };
                assert(self.leads(request@, innermost, mid, Some(failure@), exchange@.response, exchange@));
                exchange
            },
            Ok(_) => {
                let ghost mid = context@;
                let inner = innermost.handle(request);
                let ghost answer = inner@;
                let exchange = self.finish(request, context, Routing::Handled, inner);
                assert(self.leads(request@, innermost, mid, None, answer, exchange@));
                exchange
            },
        }
    }
}

/// An interceptor that fails whenever it is reached keeps the
/// before-phase from passing: the phase ends in a failure.
pub proof fn lemma_failing_before_stops<B: BeforeInterceptor>(
    befores: Seq<B>,
    request: RequestView,
    k: int,
    start: ContextView,
    end: ContextView,
    outcome: Option<FailureView>,
)
    requires
        0 <= k < befores.len(),
        forall|pre: ContextView, post: ContextView, any: Option<FailureView>| #[trigger]
            befores[k].before_allows(request, pre, post, any) ==> any is Some,
        before_phase(befores, request, start, end, outcome),
    ensures
        outcome is Some,
{
    let trail = choose|trail: Seq<ContextView>| #[trigger]
        before_run(befores, request, start, end, outcome, trail);
    if outcome is None {
        assert(before_passes(befores, request, trail, k));
    }
}

/// Short circuit: where a before-interceptor fails on a request whenever
/// it is reached, the wrapped handler never answers. The exchange is that
/// of a request stopped in the before-phase: the response surfaces a
/// failure and the request counts as never dispatched.
pub proof fn lemma_before_failure_short_circuits<
    B: BeforeInterceptor,
    A: AfterInterceptor,
    I: Handler,
>(chain: Chain<B, A>, request: RequestView, innermost: &I, k: int, exchange: ExchangeView)
    requires
        0 <= k < chain.befores().len(),
        forall|pre: ContextView, post: ContextView, any: Option<FailureView>| #[trigger]
            chain.befores()[k].before_allows(request, pre, post, any) ==> any is Some,
        chain.wraps(request, innermost, exchange),
    ensures
        exchange.exit == Exit::BeforeFailed,
        exchange.routing == Routing::Unrouted,
        exists|failure: FailureView| exchange.response == #[trigger] failure_response(failure),
{
    let (mid, stopped, inner) = choose|
        mid: ContextView,
        stopped: Option<FailureView>,
        inner: ResponseView,
    | #[trigger] chain.leads(request, innermost, mid, stopped, inner, exchange);
    lemma_failing_before_stops(chain.befores(), request, k, ContextView::fresh(), mid, stopped);
    assert(exchange.response == failure_response(stopped->0));
}

/// However a request leaves the chain, it is dispatched exactly when the
/// before-phase let it pass: an exchange is marked as never dispatched if
/// and only if a before-interceptor failed.
pub proof fn lemma_unrouted_iff_before_failed<
    B: BeforeInterceptor,
    A: AfterInterceptor,
    I: Handler,
>(chain: Chain<B, A>, request: RequestView, innermost: &I, exchange: ExchangeView)
    requires
        chain.wraps(request, innermost, exchange),
    ensures
        exchange.routing == Routing::Unrouted <==> exchange.exit == Exit::BeforeFailed,
        exchange.routing == Routing::Unrouted || exchange.routing == Routing::Handled,
{
    let (mid, stopped, inner) = choose|
        mid: ContextView,
        stopped: Option<FailureView>,
        inner: ResponseView,
    | #[trigger] chain.leads(request, innermost, mid, stopped, inner, exchange);
}

} // verus!
