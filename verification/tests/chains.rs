use std::cell::Cell;

use dispatcher::chain::{AfterInterceptor, BeforeInterceptor, Chain, Exit, Routing};
use dispatcher::context::{Context, Record};
use dispatcher::http::{Failure, Method, Request, Response};
use dispatcher::routes::{Handler, RouteTable};

enum Before {
    Note(u64),
    Store(u64, u64),
    Fail(u16),
}

impl BeforeInterceptor for Before {
    fn before(&self, request: &Request, context: &mut Context) -> Result<(), Failure> {
        match self {
            Before::Note(n) => {
                context.emit(Record { elapsed_ns: *n, path: request.path.clone() });
                Ok(())
            }
            Before::Store(key, value) => {
                context.insert(*key, *value);
                Ok(())
            }
            Before::Fail(status) => Err(Failure::new(*status, "refused", "secret reason")),
        }
    }
}

enum After {
    Note(u64),
    Recall(u64),
    Status(u16),
    Append(u8),
    Fail(u16),
}

impl AfterInterceptor for After {
    fn after(
        &self,
        request: &Request,
        context: &mut Context,
        response: Response,
    ) -> Result<Response, Failure> {
        match self {
            After::Note(n) => {
                context.emit(Record { elapsed_ns: *n, path: request.path.clone() });
                Ok(response)
            }
            After::Recall(key) => {
                let value: u64 = context.get(*key).unwrap_or(0);
                context.emit(Record { elapsed_ns: value, path: "recalled".to_string() });
                Ok(response)
            }
            After::Status(status) => Ok(Response { status: *status, ..response }),
            After::Append(byte) => {
                let mut body = response.body;
                body.push(*byte);
                Ok(Response { body, ..response })
            }
            After::Fail(status) => Err(Failure::new(*status, "broken", "stack trace")),
        }
    }
}

struct Counting<'a> {
    calls: &'a Cell<u32>,
}

impl<'a> Handler for Counting<'a> {
    fn handle(&self, request: &Request) -> Response {
        self.calls.set(self.calls.get() + 1);
        Response::text(200, &request.path)
    }
}

fn notes(records: &[Record]) -> Vec<u64> {
    records.iter().map(|r| r.elapsed_ns).collect()
}

#[test]
fn an_empty_chain_hands_the_answer_through() {
    let chain: Chain<Before, After> = Chain::new();
    let calls = Cell::new(0);
    let exchange = chain.run(&Request::new(Method::Get, "/x"), &Counting { calls: &calls });
    assert_eq!(exchange.response, Response::text(200, "/x"));
    assert_eq!(exchange.exit, Exit::Sent);
    assert_eq!(exchange.routing, Routing::Handled);
    assert!(exchange.records.is_empty());
    assert_eq!(calls.get(), 1);
}

#[test]
fn both_phases_run_in_registration_order() {
    let mut chain: Chain<Before, After> = Chain::new();
    chain.link_before(Before::Note(1));
    chain.link_after(After::Note(3));
    chain.link_before(Before::Note(2));
    chain.link_after(After::Note(4));
    chain.link_after(After::Note(5));
    let calls = Cell::new(0);
    let exchange = chain.run(&Request::new(Method::Get, "/x"), &Counting { calls: &calls });
    assert_eq!(notes(&exchange.records), vec![1, 2, 3, 4, 5]);
    assert_eq!(exchange.exit, Exit::Sent);
    assert_eq!(calls.get(), 1);
}

#[test]
fn after_interceptors_transform_in_registration_order() {
    let mut chain: Chain<Before, After> = Chain::new();
    chain.link_after(After::Append(b'1'));
    chain.link_after(After::Status(201));
    chain.link_after(After::Append(b'2'));
    chain.link_after(After::Status(202));
    let calls = Cell::new(0);
    let exchange = chain.run(&Request::new(Method::Get, "/x"), &Counting { calls: &calls });
    assert_eq!(exchange.response.status, 202);
    assert_eq!(exchange.response.body, b"/x12".to_vec());
}

#[test]
fn the_context_carries_values_from_before_to_after() {
    let mut chain: Chain<Before, After> = Chain::new();
    chain.link_before(Before::Store(9, 41));
    chain.link_before(Before::Store(9, 42));
    chain.link_after(After::Recall(9));
    chain.link_after(After::Recall(8));
    let calls = Cell::new(0);
    let exchange = chain.run(&Request::new(Method::Get, "/x"), &Counting { calls: &calls });
    assert_eq!(notes(&exchange.records), vec![42, 0]);
}

#[test]
fn each_request_gets_a_fresh_context() {
    let mut chain: Chain<Before, After> = Chain::new();
    chain.link_after(After::Recall(9));
    chain.link_before(Before::Store(9, 1));
    let calls = Cell::new(0);
    let first = chain.run(&Request::new(Method::Get, "/x"), &Counting { calls: &calls });
    let second = chain.run(&Request::new(Method::Get, "/x"), &Counting { calls: &calls });
    assert_eq!(first.records.len(), 1);
    assert_eq!(second.records.len(), 1);
    assert_eq!(first, second);
}

#[test]
fn a_failing_before_interceptor_short_circuits() {
    let mut chain: Chain<Before, After> = Chain::new();
    chain.link_before(Before::Note(1));
    chain.link_before(Before::Fail(401));
    chain.link_before(Before::Note(2));
    chain.link_after(After::Note(3));
    let calls = Cell::new(0);
    let exchange = chain.run(&Request::new(Method::Get, "/x"), &Counting { calls: &calls });
    assert_eq!(calls.get(), 0);
    assert_eq!(exchange.exit, Exit::BeforeFailed);
    assert_eq!(exchange.routing, Routing::Unrouted);
    assert_eq!(notes(&exchange.records), vec![1]);
    assert_eq!(exchange.response, Response::text(401, "refused"));
}

#[test]
fn a_failing_after_interceptor_ends_the_chain() {
    let mut chain: Chain<Before, After> = Chain::new();
    chain.link_before(Before::Note(1));
    chain.link_after(After::Note(2));
    chain.link_after(After::Fail(503));
    chain.link_after(After::Note(3));
    chain.link_after(After::Status(200));
    let calls = Cell::new(0);
    let exchange = chain.run(&Request::new(Method::Get, "/x"), &Counting { calls: &calls });
    assert_eq!(calls.get(), 1);
    assert_eq!(exchange.exit, Exit::AfterFailed);
    assert_eq!(exchange.routing, Routing::Handled);
    assert_eq!(notes(&exchange.records), vec![1, 2]);
    assert_eq!(exchange.response, Response::text(503, "broken"));
}

#[test]
fn a_failure_response_does_not_leak_the_detail() {
    let failure = Failure::new(500, "Internal Server Error", "db password rejected");
    let response = failure.to_response();
    assert_eq!(response.status, 500);
    assert_eq!(response.content_type, "text/plain");
    assert_eq!(response.body, b"Internal Server Error".to_vec());
}

#[test]
fn the_phases_can_be_run_one_by_one() {
    let mut chain: Chain<Before, After> = Chain::new();
    chain.link_before(Before::Store(1, 10));
    chain.link_before(Before::Fail(400));
    chain.link_after(After::Status(204));
    let request = Request::new(Method::Get, "/x");
    let mut context = Context::new();
    let stopped = chain.run_before(&request, &mut context);
    assert_eq!(stopped, Err(Failure::new(400, "refused", "secret reason")));
    assert_eq!(context.get(1), Some(10));
    let passed = chain.run_after(&request, &mut context, Response::text(200, "body"));
    assert_eq!(passed, Ok(Response::text(204, "body")));
    let exchange = chain.finish(&request, context, Routing::NotFound, Response::not_found());
    assert_eq!(exchange.response.status, 204);
    assert_eq!(exchange.response.body, b"Not Found".to_vec());
    assert_eq!(exchange.routing, Routing::NotFound);
    assert_eq!(exchange.exit, Exit::Sent);
}

#[test]
fn a_route_table_can_be_the_innermost_handler() {
    let calls = Cell::new(0);
    let mut table: RouteTable<Counting> = RouteTable::new();
    assert!(table.register(Method::Get, "/x", Counting { calls: &calls }, "x").is_ok());
    let mut chain: Chain<Before, After> = Chain::new();
    chain.link_after(After::Note(1));
    let hit = chain.run(&Request::new(Method::Get, "/x"), &table);
    assert_eq!(hit.response.status, 200);
    let miss = chain.run(&Request::new(Method::Get, "/y"), &table);
    assert_eq!(miss.response, Response::not_found());
    assert_eq!(miss.exit, Exit::Sent);
    assert_eq!(notes(&miss.records), vec![1]);
    assert_eq!(calls.get(), 1);
}

#[test]
fn context_stores_and_replaces_values() {
    let mut context = Context::new();
    assert_eq!(context.get(0), None);
    context.insert(0, 5);
    context.insert(3, 7);
    assert_eq!(context.get(0), Some(5));
    context.insert(0, 6);
    assert_eq!(context.get(0), Some(6));
    assert_eq!(context.get(3), Some(7));
    assert_eq!(context.get(4), None);
    context.emit(Record { elapsed_ns: 1, path: "a".to_string() });
    context.emit(Record { elapsed_ns: 2, path: "b".to_string() });
    assert_eq!(
        context.into_records(),
        vec![
            Record { elapsed_ns: 1, path: "a".to_string() },
            Record { elapsed_ns: 2, path: "b".to_string() }
        ]
    );
}
