use minihttp::header::Header;
use minihttp::method::Method;
use minihttp::path::Path;
use minihttp::pool::JobQueue;
use minihttp::response::Response;
use minihttp::routes::{Route, Router};
use minihttp::serve::ServeStatic;
use minihttp::server::{method_not_allowed_body, not_found_body};
use minihttp::status::Status;

#[test]
fn header_set_then_get_round_trip() {
    let mut h = Header::new();
    h.set("X", "1");
    h.set("Y", "2");
    assert_eq!(h.get("X").map(|s| s.as_str()), Some("1"));
    assert_eq!(h.get("Y").map(|s| s.as_str()), Some("2"));
    h.set("X", "3");
    assert_eq!(h.get("X").map(|s| s.as_str()), Some("3"));
    assert_eq!(h.get("Z"), None);
}

#[test]
fn header_serialization_holds_each_entry() {
    let mut h = Header::new();
    h.set("X", "1");
    h.set("Y", "2");
    let wire = h.to_string();
    assert!(wire.contains("X: 1\r\n"));
    assert!(wire.contains("Y: 2\r\n"));
    assert_eq!(wire.len(), "X: 1\r\n".len() + "Y: 2\r\n".len());
}

#[test]
fn header_from_lines() {
    let h = Header::from(vec!["Host: example".to_string(), "Accept: */*".to_string()]);
    assert_eq!(h.get("Host").map(|s| s.as_str()), Some("example"));
    assert_eq!(h.get("Accept").map(|s| s.as_str()), Some("*/*"));
}

#[test]
fn header_from_repeated_key_keeps_last() {
    let h = Header::from(vec!["A: 1".to_string(), "A: 2".to_string()]);
    assert_eq!(h.get("A").map(|s| s.as_str()), Some("2"));
}

#[test]
fn response_send_empty_body() {
    let mut res = Response::new();
    let wire = res.send("");
    assert_eq!(
        wire,
        "HTTP/1.1 200 OK\r\nContent-Type: text/plain\r\nContent-Length: 0\r\n\r\n"
    );
}

#[test]
fn header_value_with_separator_is_cut_short() {
    let h = Header::from(vec!["A: b: c".to_string()]);
    assert_eq!(h.get("A").map(|s| s.as_str()), Some("b"));
}

#[test]
fn route_precedence_first_add_wins() {
    let mut router: Router<u64> = Router::new();
    router.add(Route::new("/dup", Method::Get, 1));
    router.add(Route::new("/dup", Method::Get, 2));
    let found = router.get(&Method::Get, "/dup").unwrap();
    assert_eq!(found.callback, Some(1));
    assert_eq!(router.choose_callback(&Method::Get, "/dup"), Some(1));
}

#[test]
fn router_tables_are_per_method() {
    let mut router: Router<u64> = Router::new();
    router.add(Route::new("/x", Method::Get, 1));
    router.add(Route::new("/x", Method::Post, 2));
    assert_eq!(router.get(&Method::Get, "/x").unwrap().callback, Some(1));
    assert_eq!(router.get(&Method::Post, "/x").unwrap().callback, Some(2));
    assert!(router.get(&Method::Put, "/x").is_none());
}

#[test]
fn router_fallback_choice() {
    let mut router: Router<u64> = Router::new();
    assert_eq!(router.choose_callback(&Method::Get, "/missing"), None);
    router.not_found(9);
    assert_eq!(router.choose_callback(&Method::Get, "/missing"), Some(9));
    router.add(Route::new("/here", Method::Get, 1));
    assert_eq!(router.choose_callback(&Method::Get, "/here"), Some(1));
}

#[test]
fn default_not_found_scenario() {
    let router: Router<u64> = Router::new();
    assert_eq!(router.choose_callback(&Method::Get, "/missing"), None);
    assert_eq!(not_found_body("/missing"), "Page /missing Not Found!");
    let mut res = Response::new();
    res.status.status_code = 404;
    let wire = res.send(&not_found_body("/missing"));
    assert!(wire.starts_with("HTTP/1.1 404 Not Found\r\n"));
    assert!(wire.ends_with("\r\n\r\nPage /missing Not Found!"));
}

#[test]
fn method_not_allowed_scenario() {
    let req = minihttp::request::Request::parse("FOO / HTTP/1.1\r\n\r\n").unwrap();
    assert_eq!(req.method, None);
    assert_eq!(method_not_allowed_body(), "Method None Not Allowed!");
    let mut res = Response::new();
    res.status.status_code = 405;
    let wire = res.send(&method_not_allowed_body());
    assert!(wire.starts_with("HTTP/1.1 405 Method Not Allowed\r\n"));
    assert!(wire.ends_with("\r\n\r\nMethod None Not Allowed!"));
}

#[test]
fn status_line_wire_form() {
    let s = Status::new();
    assert_eq!(s.status_code, 200);
    assert_eq!(s.to_string(), "HTTP/1.1 200 OK");
}

#[test]
fn response_send_exact_wire_form() {
    let mut res = Response::new();
    let wire = res.send("hi");
    assert_eq!(
        wire,
        "HTTP/1.1 200 OK\r\nContent-Type: text/plain\r\nContent-Length: 2\r\n\r\nhi"
    );
}

#[test]
fn response_send_file_sets_mime_and_length() {
    let mut res = Response::new();
    let wire = res.send_file("public/index.html", "<h1>hello</h1>");
    assert!(wire.contains("Content-Type: text/html\r\n"));
    assert!(wire.contains("Content-Length: 14\r\n"));
    assert!(wire.ends_with("\r\n\r\n<h1>hello</h1>"));

    let mut res2 = Response::new();
    let wire2 = res2.send_file("logo.png", "x");
    assert!(wire2.contains("Content-Type: image/png\r\n"));

    let mut res3 = Response::new();
    let wire3 = res3.send_file("README", "x");
    assert!(wire3.contains("Content-Type: application/octet-stream\r\n"));
}

#[test]
fn path_join_and_to_str() {
    let p = Path::new("public").join("NotFound.html");
    assert_eq!(p.to_str(), "public/NotFound.html");
}

#[test]
fn static_traversal_is_sanitized() {
    let p = ServeStatic::sanitize_path("/../../etc/passwd");
    assert_eq!(p.to_str(), "etc/passwd");
    let serve = ServeStatic::dir("public");
    assert_eq!(serve.candidate("/../../etc/passwd"), "public/etc/passwd");
    assert_eq!(serve.candidate("/./a/../b.css"), "public/a/b.css");
}

#[test]
fn static_resolve_only_for_unrouted_get() {
    let serve = ServeStatic::dir("public");
    let mut router: Router<u64> = Router::new();
    let req = minihttp::request::Request::parse("GET /style.css HTTP/1.1\r\n\r\n").unwrap();
    assert_eq!(serve.resolve(&router, &req).as_deref(), Some("public/style.css"));

    router.add(Route::new("/style.css", Method::Get, 1));
    assert_eq!(serve.resolve(&router, &req), None);

    let post = minihttp::request::Request::parse("POST /style.css HTTP/1.1\r\n\r\n").unwrap();
    assert_eq!(serve.resolve(&router, &post), None);
}

#[test]
fn static_register_rewrites_path_and_adds_route() {
    let serve = ServeStatic::dir("public");
    let mut router: Router<u64> = Router::new();
    let mut req = minihttp::request::Request::parse("GET /style.css HTTP/1.1\r\n\r\n").unwrap();
    let candidate = serve.resolve(&router, &req).unwrap();
    serve.register_file(&mut router, &mut req, &candidate, 7);
    assert_eq!(req.path.as_deref(), Some("public/style.css"));
    let route = router.get(&Method::Get, "public/style.css").unwrap();
    assert_eq!(route.callback, Some(7));
    assert_eq!(route.method, Method::Get);
}

#[test]
fn pool_queue_is_fifo_and_complete() {
    let mut q: JobQueue<u64> = JobQueue::new();
    for job in 0..10u64 {
        q.push(job);
    }
    assert_eq!(q.len(), 10);
    let mut seen = Vec::new();
    while let Some(j) = q.pop() {
        seen.push(j);
    }
    assert_eq!(seen, (0..10u64).collect::<Vec<u64>>());
    assert_eq!(q.pop(), None);
    assert_eq!(q.len(), 0);
}
