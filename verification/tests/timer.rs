use std::time::{Duration, Instant};

use dispatcher::chain::{AfterInterceptor, BeforeInterceptor, Chain, Exit};
use dispatcher::context::{Context, Record, START_TIME_KEY};
use dispatcher::http::{Failure, Method, Request, Response};
use dispatcher::routes::Handler;
use dispatcher::timer::ResponseTime;

struct Slow(Duration);

impl Handler for Slow {
    fn handle(&self, _request: &Request) -> Response {
        let begun = Instant::now();
        while begun.elapsed() < self.0 {
            std::hint::spin_loop();
        }
        Response::text(200, "done")
    }
}

#[test]
fn elapsed_is_the_difference_of_the_readings() {
    assert_eq!(ResponseTime::elapsed_between(5, 12), 7);
    assert_eq!(ResponseTime::elapsed_between(0, 0), 0);
    assert_eq!(ResponseTime::elapsed_between(0, u64::MAX), u64::MAX);
    assert_eq!(ResponseTime::elapsed_between(1_000_000, 3_500_000), 2_500_000);
}

#[test]
fn elapsed_is_zero_where_the_clock_went_back() {
    assert_eq!(ResponseTime::elapsed_between(12, 5), 0);
    assert_eq!(ResponseTime::elapsed_between(u64::MAX, 0), 0);
}

#[test]
fn stamp_stores_the_start_time() {
    let mut context = Context::new();
    ResponseTime::stamp(&mut context, 5);
    assert_eq!(context.get(START_TIME_KEY), Some(5));
    ResponseTime::stamp(&mut context, 9);
    assert_eq!(context.get(START_TIME_KEY), Some(9));
    assert!(context.into_records().is_empty());
}

#[test]
fn measure_emits_one_record() {
    let mut context = Context::new();
    ResponseTime::stamp(&mut context, 5);
    assert_eq!(ResponseTime::measure(&mut context, "/p", 12), Ok(()));
    assert_eq!(context.get(START_TIME_KEY), Some(5));
    assert_eq!(context.into_records(), vec![Record { elapsed_ns: 7, path: "/p".to_string() }]);
}

#[test]
fn measure_without_a_start_time_fails() {
    let mut context = Context::new();
    let result = ResponseTime::measure(&mut context, "/p", 12);
    assert_eq!(
        result,
        Err(Failure::new(
            500,
            "Internal Server Error",
            "response timer: no start time in the context"
        ))
    );
    assert!(context.into_records().is_empty());
}

#[test]
fn the_before_phase_reads_the_clock() {
    let mut context = Context::new();
    let request = Request::new(Method::Get, "/p");
    assert_eq!(ResponseTime.before(&request, &mut context), Ok(()));
    let first: u64 = context.get(START_TIME_KEY).unwrap();
    assert_eq!(ResponseTime.before(&request, &mut context), Ok(()));
    let second: u64 = context.get(START_TIME_KEY).unwrap();
    assert!(second >= first);
}

#[test]
fn the_after_phase_leaves_the_response_alone() {
    let mut context = Context::new();
    let request = Request::new(Method::Get, "/p");
    ResponseTime::stamp(&mut context, 0);
    let handed = ResponseTime.after(&request, &mut context, Response::text(418, "teapot"));
    assert_eq!(handed, Ok(Response::text(418, "teapot")));
    let records = context.into_records();
    assert_eq!(records.len(), 1);
    assert_eq!(records[0].path, "/p");
}

#[test]
fn timer_reports_at_least_the_time_the_handler_took() {
    let mut chain: Chain<ResponseTime, ResponseTime> = Chain::new();
    chain.link_before(ResponseTime);
    chain.link_after(ResponseTime);
    let pause = Duration::from_millis(5);
    let exchange = chain.run(&Request::new(Method::Get, "/slow"), &Slow(pause));
    assert_eq!(exchange.exit, Exit::Sent);
    assert_eq!(exchange.response, Response::text(200, "done"));
    assert_eq!(exchange.records.len(), 1);
    assert_eq!(exchange.records[0].path, "/slow");
    assert!(exchange.records[0].elapsed_ns >= 5_000_000);
}

#[test]
fn timer_after_without_timer_before_fails_the_request() {
    let mut chain: Chain<ResponseTime, ResponseTime> = Chain::new();
    chain.link_after(ResponseTime);
    let exchange = chain.run(&Request::new(Method::Get, "/x"), &Slow(Duration::from_millis(0)));
    assert_eq!(exchange.exit, Exit::AfterFailed);
    assert_eq!(exchange.response, Response::text(500, "Internal Server Error"));
    assert!(exchange.records.is_empty());
}
