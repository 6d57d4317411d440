use dispatcher::http::{Method, Request, Response};
use dispatcher::mount::{Dispatched, MountTable, Routed, StaticFiles, Target};
use dispatcher::routes::{Handler, RouteTable};

struct Echo;

impl Handler for Echo {
    fn handle(&self, request: &Request) -> Response {
        Response::text(200, &request.path)
    }
}

fn routes(entries: &[(&str, u32)]) -> RouteTable<u32> {
    let mut table: RouteTable<u32> = RouteTable::new();
    for (pattern, handler) in entries {
        assert!(table.register(Method::Get, pattern, *handler, "route").is_ok());
    }
    table
}

fn site() -> MountTable<u32> {
    let mut mounts: MountTable<u32> = MountTable::new();
    mounts.mount("/", Target::Routes(routes(&[("/hello", 1), ("/static/x", 2), ("/", 3)])));
    mounts.mount("/static/", Target::Files(StaticFiles::new("static").cache(600)));
    mounts
}

fn handler_of(routed: Routed<u32>) -> Option<(u32, String)> {
    match routed {
        Routed::Handler { handler, request } => Some((*handler, request.path)),
        _ => None,
    }
}

fn file_of(routed: Routed<u32>) -> Option<(String, String, u64)> {
    match routed {
        Routed::File { root, relative, cache_secs } => Some((root, relative, cache_secs)),
        _ => None,
    }
}

#[test]
fn static_files_builder_sets_root_and_cache() {
    let plain = StaticFiles::new("static");
    assert_eq!(plain.root, "static");
    assert_eq!(plain.cache_secs, 0);
    let cached = plain.cache(600);
    assert_eq!(cached, StaticFiles { root: "static".to_string(), cache_secs: 600 });
}

#[test]
fn longest_prefix_wins_over_the_root() {
    let mounts = site();
    let routed = mounts.route(&Request::new(Method::Get, "/static/x"));
    assert_eq!(file_of(routed), Some(("static".to_string(), "x".to_string(), 600)));
}

#[test]
fn longest_prefix_wins_whatever_the_mount_order() {
    let mut mounts: MountTable<u32> = MountTable::new();
    mounts.mount("/static/", Target::Files(StaticFiles::new("static").cache(600)));
    mounts.mount("/", Target::Routes(routes(&[("/static/x", 2)])));
    let routed = mounts.route(&Request::new(Method::Get, "/static/x"));
    assert_eq!(file_of(routed), Some(("static".to_string(), "x".to_string(), 600)));
}

#[test]
fn static_root_sees_the_path_below_the_mount() {
    let mounts = site();
    let routed = mounts.route(&Request::new(Method::Get, "/static/foo.txt"));
    assert_eq!(file_of(routed), Some(("static".to_string(), "foo.txt".to_string(), 600)));
    let deep = mounts.route(&Request::new(Method::Get, "/static/css/site.css"));
    assert_eq!(file_of(deep), Some(("static".to_string(), "css/site.css".to_string(), 600)));
    let bare = mounts.route(&Request::new(Method::Get, "/static"));
    assert_eq!(file_of(bare), Some(("static".to_string(), "".to_string(), 600)));
}

#[test]
fn a_mount_does_not_catch_a_longer_name() {
    let mounts = site();
    let routed = mounts.route(&Request::new(Method::Get, "/staticfoo"));
    assert!(matches!(routed, Routed::NotFound));
}

#[test]
fn the_root_mount_sees_the_whole_path() {
    let mounts = site();
    let routed = mounts.route(&Request::new(Method::Get, "/hello"));
    assert_eq!(handler_of(routed), Some((1, "/hello".to_string())));
    let top = mounts.route(&Request::new(Method::Get, "/"));
    assert_eq!(handler_of(top), Some((3, "/".to_string())));
}

#[test]
fn without_a_matching_mount_nothing_is_found() {
    let mut mounts: MountTable<u32> = MountTable::new();
    assert!(matches!(mounts.route(&Request::new(Method::Get, "/")), Routed::NotFound));
    mounts.mount("/static/", Target::Files(StaticFiles::new("static")));
    assert!(matches!(mounts.route(&Request::new(Method::Get, "/other")), Routed::NotFound));
    assert!(matches!(mounts.route(&Request::new(Method::Get, "/")), Routed::NotFound));
}

#[test]
fn a_route_miss_under_a_mount_is_not_found() {
    let mounts = site();
    assert!(matches!(mounts.route(&Request::new(Method::Get, "/nope")), Routed::NotFound));
    assert!(matches!(mounts.route(&Request::new(Method::Post, "/hello")), Routed::NotFound));
}

#[test]
fn a_path_that_leaves_the_static_root_is_forbidden() {
    let mounts = site();
    assert!(matches!(
        mounts.route(&Request::new(Method::Get, "/static/../secret")),
        Routed::Forbidden
    ));
    assert!(matches!(
        mounts.route(&Request::new(Method::Get, "/static/a/../../secret")),
        Routed::Forbidden
    ));
    let inside = mounts.route(&Request::new(Method::Get, "/static/a/../b.txt"));
    assert_eq!(file_of(inside), Some(("static".to_string(), "a/../b.txt".to_string(), 600)));
}

#[test]
fn a_later_mount_replaces_an_earlier_one() {
    let mut mounts: MountTable<u32> = MountTable::new();
    mounts.mount("/a", Target::Routes(routes(&[("/x", 1)])));
    mounts.mount("/a/", Target::Routes(routes(&[("/x", 2)])));
    let routed = mounts.route(&Request::new(Method::Get, "/a/x"));
    assert_eq!(handler_of(routed), Some((2, "/x".to_string())));
}

#[test]
fn nested_tables_rewrite_in_turn() {
    let mut inner: MountTable<u32> = MountTable::new();
    inner.mount("/v1", Target::Routes(routes(&[("/users", 7), ("/", 8)])));
    let mut outer: MountTable<u32> = MountTable::new();
    outer.mount("/", Target::Routes(routes(&[("/api/v2/users", 9)])));
    outer.mount("/api", Target::Nested(inner));
    let routed = outer.route(&Request::new(Method::Get, "/api/v1/users"));
    assert_eq!(handler_of(routed), Some((7, "/users".to_string())));
    let top = outer.route(&Request::new(Method::Get, "/api/v1"));
    assert_eq!(handler_of(top), Some((8, "/".to_string())));
    let shadowed = outer.route(&Request::new(Method::Get, "/api/v2/users"));
    assert!(matches!(shadowed, Routed::NotFound));
}

#[test]
fn dispatch_lets_the_target_answer() {
    let mut table: RouteTable<Echo> = RouteTable::new();
    assert!(table.register(Method::Get, "/ping", Echo, "ping").is_ok());
    let mut mounts: MountTable<Echo> = MountTable::new();
    mounts.mount("/api/", Target::Routes(table));
    mounts.mount("/files", Target::Files(StaticFiles::new("pub").cache(5)));
    assert_eq!(
        mounts.dispatch(&Request::new(Method::Get, "/api/ping")),
        Dispatched::Answered(Response::text(200, "/ping"))
    );
    assert_eq!(
        mounts.dispatch(&Request::new(Method::Get, "/api/pong")),
        Dispatched::Answered(Response::not_found())
    );
    assert_eq!(
        mounts.dispatch(&Request::new(Method::Get, "/elsewhere")),
        Dispatched::Answered(Response::not_found())
    );
    assert_eq!(
        mounts.dispatch(&Request::new(Method::Get, "/files/../x")),
        Dispatched::Answered(Response::forbidden())
    );
    assert_eq!(
        mounts.dispatch(&Request::new(Method::Get, "/files/a.txt")),
        Dispatched::File { root: "pub".to_string(), relative: "a.txt".to_string(), cache_secs: 5 }
    );
}

#[test]
fn a_static_root_is_never_asked_for_an_absolute_path() {
    let mounts = site();
    let doubled = mounts.route(&Request::new(Method::Get, "/static//etc/passwd"));
    assert_eq!(file_of(doubled), Some(("static".to_string(), "etc/passwd".to_string(), 600)));
    let many = mounts.route(&Request::new(Method::Get, "/static////x"));
    assert_eq!(file_of(many), Some(("static".to_string(), "x".to_string(), 600)));
    assert!(matches!(
        mounts.route(&Request::new(Method::Get, "/static//../x")),
        Routed::Forbidden
    ));
}
