use dispatcher::http::{Method, Request, Response};
use dispatcher::routes::{Handler, RouteError, RouteTable};

struct Fixed(u16);

impl Handler for Fixed {
    fn handle(&self, _request: &Request) -> Response {
        Response::text(self.0, "fixed")
    }
}

#[test]
fn empty_table_resolves_nothing() {
    let table: RouteTable<u32> = RouteTable::new();
    assert_eq!(table.len(), 0);
    assert_eq!(table.resolve(Method::Get, "/"), None);
    assert_eq!(table.name_of(Method::Get, "/"), None);
}

#[test]
fn registered_route_resolves_to_its_handler() {
    let mut table: RouteTable<u32> = RouteTable::new();
    assert_eq!(table.register(Method::Get, "/hello", 1, "hello"), Ok(()));
    assert_eq!(table.register(Method::Get, "/json", 2, "json"), Ok(()));
    assert_eq!(table.register(Method::Post, "/hello", 3, "hello-post"), Ok(()));
    assert_eq!(table.len(), 3);
    assert_eq!(table.resolve(Method::Get, "/hello"), Some(&1));
    assert_eq!(table.resolve(Method::Get, "/json"), Some(&2));
    assert_eq!(table.resolve(Method::Post, "/hello"), Some(&3));
    assert_eq!(table.name_of(Method::Post, "/hello"), Some("hello-post".to_string()));
    assert_eq!(table.name_of(Method::Get, "/json"), Some("json".to_string()));
}

#[test]
fn any_other_pair_is_not_found() {
    let mut table: RouteTable<u32> = RouteTable::new();
    assert_eq!(table.register(Method::Get, "/hello", 1, "hello"), Ok(()));
    assert_eq!(table.resolve(Method::Post, "/hello"), None);
    assert_eq!(table.resolve(Method::Get, "/hello/"), None);
    assert_eq!(table.resolve(Method::Get, "hello"), None);
    assert_eq!(table.resolve(Method::Get, "/Hello"), None);
    assert_eq!(table.resolve(Method::Get, "/hell"), None);
    assert_eq!(table.resolve(Method::Get, ""), None);
}

#[test]
fn patterns_are_literal() {
    let mut table: RouteTable<u32> = RouteTable::new();
    assert_eq!(table.register(Method::Get, "/users/:id", 1, "user"), Ok(()));
    assert_eq!(table.register(Method::Get, "/files/*", 2, "files"), Ok(()));
    assert_eq!(table.resolve(Method::Get, "/users/7"), None);
    assert_eq!(table.resolve(Method::Get, "/files/a"), None);
    assert_eq!(table.resolve(Method::Get, "/users/:id"), Some(&1));
    assert_eq!(table.resolve(Method::Get, "/files/*"), Some(&2));
}

#[test]
fn duplicate_route_is_refused_and_changes_nothing() {
    let mut table: RouteTable<u32> = RouteTable::new();
    assert_eq!(table.register(Method::Get, "/a", 1, "first"), Ok(()));
    assert_eq!(table.register(Method::Get, "/a", 2, "second"), Err(RouteError::DuplicateRoute));
    assert_eq!(table.len(), 1);
    assert_eq!(table.resolve(Method::Get, "/a"), Some(&1));
    assert_eq!(table.name_of(Method::Get, "/a"), Some("first".to_string()));
}

#[test]
fn table_dispatches_to_handler_or_not_found() {
    let mut table: RouteTable<Fixed> = RouteTable::new();
    assert!(table.register(Method::Get, "/a", Fixed(201), "a").is_ok());
    assert!(table.register(Method::Put, "/a", Fixed(202), "a-put").is_ok());
    let got = table.dispatch(&Request::new(Method::Get, "/a"));
    assert_eq!(got, Response::text(201, "fixed"));
    let put = table.handle(&Request::new(Method::Put, "/a"));
    assert_eq!(put.status, 202);
    let missing = table.dispatch(&Request::new(Method::Delete, "/a"));
    assert_eq!(missing, Response::not_found());
    assert_eq!(missing.status, 404);
    assert_eq!(missing.content_type, "text/plain");
    assert_eq!(missing.body, b"Not Found".to_vec());
}
