use vstd::prelude::*;
use crate::chain::{AfterInterceptor, BeforeInterceptor};
use crate::context::{Context, ContextView, Record, RecordView, START_TIME_KEY};
use crate::http::{
    Failure, FailureView, Request, RequestView, Response, ResponseView, STATUS_INTERNAL_ERROR,
};

verus! {

/// Reads the clock through `time::precise_time_ns`: nanoseconds since an
/// epoch that the `time` crate leaves open. Nothing is claimed of the
/// value.
#[verifier::external_body]
fn clock_ns() -> (now: u64) {
    time::precise_time_ns()
}

/// The nanoseconds from `start` to `now`; zero where the clock went back.
pub open spec fn elapsed(start: u64, now: u64) -> u64 {
    if now >= start {
        (now - start) as u64
    } else {
        0
    }
}

/// The context after the timer's before-phase read the clock at `now`.
pub open spec fn stamped(pre: ContextView, now: u64) -> ContextView {
    pre.with_value(START_TIME_KEY, now)
}

/// The context after the timer's after-phase read the clock at `now`, for
/// a request for `path` that entered the chain at `start`.
pub open spec fn timed(pre: ContextView, path: Seq<char>, start: u64, now: u64) -> ContextView {
    pre.with_record(RecordView { elapsed_ns: elapsed(start, now), path })
}

/// The failure of the timer's after-phase on a request that its
/// before-phase never saw.
pub open spec fn untimed_failure() -> FailureView {
    FailureView {
        status: STATUS_INTERNAL_ERROR,
        message: "Internal Server Error"@,
        detail: "response timer: no start time in the context"@,
    }
}

/// The response timer. Its before-phase notes when a request entered the
/// chain; its after-phase emits a record of the time the request took and
/// leaves the response as it is.
#[derive(Clone, Copy, Debug, PartialEq, Eq)]
pub struct ResponseTime;

impl ResponseTime {
    /// Computes the nanoseconds from `start` to `now`.
    pub fn elapsed_between(start: u64, now: u64) -> (ns: u64)
        ensures
            ns == elapsed(start, now),
    {
        if now >= start {
            now - start
        } else {
            0
        }
    }

    /// The before-phase at a given clock reading: stores `now` as the
    /// request's start time.
    pub fn stamp(context: &mut Context, now: u64)
        ensures
            final(context)@ == stamped(old(context)@, now),
    {
        context.insert(START_TIME_KEY, now);
    }

    /// The after-phase at a given clock reading: emits the record of a
    /// request for `path` that ends at `now`. Fails, and leaves the context
    /// as it is, where no start time was stored.
    pub fn measure(context: &mut Context, path: &str, now: u64) -> (result: Result<(), Failure>)
        ensures
            match result {
                Ok(_) => old(context)@.values.dom().contains(START_TIME_KEY) && final(context)@
                    == timed(old(context)@, path@, old(context)@.values[START_TIME_KEY], now),
                Err(failure) => !old(context)@.values.dom().contains(START_TIME_KEY)
                    && final(context)@ == old(context)@ && failure@ == untimed_failure(),
            },
    {
        match context.get(START_TIME_KEY) {
            Some(start) => {
                let record = Record {
                    elapsed_ns: Self::elapsed_between(start, now),
                    path: path.to_owned(),
                };
                context.emit(record);
                Ok(())
            },
            None => Err(
                Failure::new(
                    STATUS_INTERNAL_ERROR,
                    "Internal Server Error",
                    "response timer: no start time in the context",
                ),
            ),
        }
    }
}

impl BeforeInterceptor for ResponseTime {
    /// The timer lets every request pass and stores some clock reading as
    /// its start time.
    open spec fn before_allows(
        &self,
        request: RequestView,
        pre: ContextView,
        post: ContextView,
        outcome: Option<FailureView>,
    ) -> bool {
        outcome is None && exists|now: u64| post == #[trigger] stamped(pre, now)
    }

    fn before(&self, request: &Request, context: &mut Context) -> (result: Result<(), Failure>) {
        let now = clock_ns();
        Self::stamp(context, now);
        assert(context@ == stamped(old(context)@, now));
        Ok(())
    }
}

impl AfterInterceptor for ResponseTime {
    /// With a start time in the context, the timer hands the response on
    /// unchanged and emits the record for some clock reading; without one
    /// it fails and changes nothing.
    open spec fn after_allows(
        &self,
        request: RequestView,
        pre: ContextView,
        current: ResponseView,
        post: ContextView,
        outcome: Result<ResponseView, FailureView>,
    ) -> bool {
        if pre.values.dom().contains(START_TIME_KEY) {
            outcome == Ok::<ResponseView, FailureView>(current) && exists|now: u64|
                post == #[trigger] timed(pre, request.path, pre.values[START_TIME_KEY], now)
        } else {
            outcome == Err::<ResponseView, FailureView>(untimed_failure()) && post == pre
        }
    }

    fn after(&self, request: &Request, context: &mut Context, response: Response) -> (result:
        Result<Response, Failure>) {
        let now = clock_ns();
        match Self::measure(context, request.path.as_str(), now) {
            Ok(_) => {
                assert(context@ == timed(
                    old(context)@,
                    request@.path,
                    old(context)@.values[START_TIME_KEY],
                    now,
                ));
                Ok(response)
            },
            Err(failure) => Err(failure),
        }
    }
}

} // verus!
