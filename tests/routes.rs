use ngakalin::config::{Configuration as Settings, Response as ResponseFile, Service as Identity};
use ngakalin::endpoint::{is_valid_status, parse_method, Method, Service, Source};
use ngakalin::route::{create_route, register_route, route_key, ConfigError};

fn source(endpoint: &str, method: &str, content_type: &str, response: &str, status: u16) -> Source {
    Source {
        endpoint: endpoint.to_string(),
        method: method.to_string(),
        content_type: content_type.to_string(),
        response: response.to_string(),
        status,
        query_params: None,
    }
}

fn service(prefix: &str, sources: Vec<Source>) -> Service {
    Service { name: "svc".to_string(), prefix: prefix.to_string(), sources }
}

#[test]
fn parse_method_accepts_the_five_verbs() {
    assert_eq!(parse_method(&"GET".to_string()), Some(Method::Get));
    assert_eq!(parse_method(&"POST".to_string()), Some(Method::Post));
    assert_eq!(parse_method(&"PUT".to_string()), Some(Method::Put));
    assert_eq!(parse_method(&"DELETE".to_string()), Some(Method::Delete));
    assert_eq!(parse_method(&"PATCH".to_string()), Some(Method::Patch));
}

#[test]
fn parse_method_is_case_sensitive() {
    assert_eq!(parse_method(&"get".to_string()), None);
    assert_eq!(parse_method(&"HEAD".to_string()), None);
    assert_eq!(parse_method(&"".to_string()), None);
}

#[test]
fn method_names_round_trip() {
    for m in [Method::Get, Method::Post, Method::Put, Method::Delete, Method::Patch] {
        assert_eq!(parse_method(&m.as_string()), Some(m));
    }
    assert_eq!(Method::Delete.as_string(), "DELETE");
}

#[test]
fn status_range_is_100_to_599() {
    assert!(!is_valid_status(99));
    assert!(is_valid_status(100));
    assert!(is_valid_status(200));
    assert!(is_valid_status(599));
    assert!(!is_valid_status(600));
    assert!(!is_valid_status(0));
}

#[test]
fn create_route_concatenates_prefix_and_endpoint() {
    let svc = service(
        "/api",
        vec![
            source("/users", "GET", "application/json", "u.json", 200),
            source("users", "POST", "text/plain", "p.txt", 201),
        ],
    );
    let routes = create_route(&svc).unwrap();
    assert_eq!(routes.len(), 2);
    assert_eq!(routes[0].method, Method::Get);
    assert_eq!(routes[0].path, "/api/users");
    assert_eq!(routes[0].rule.response, "u.json");
    assert_eq!(routes[0].rule.status, 200);
    assert_eq!(routes[1].method, Method::Post);
    assert_eq!(routes[1].path, "/apiusers");
    assert_eq!(routes[1].rule.content_type, "text/plain");
    assert_eq!(routes[1].rule.status, 201);
}

#[test]
fn create_route_rejects_unsupported_method() {
    let svc = service(
        "/api",
        vec![
            source("/a", "GET", "text/plain", "a.txt", 200),
            source("/b", "get", "text/plain", "b.txt", 200),
            source("/c", "POST", "text/plain", "c.txt", 999),
        ],
    );
    match create_route(&svc) {
        Err(ConfigError::UnsupportedMethod { method }) => assert_eq!(method, "get"),
        other => panic!("unexpected {:?}", other),
    }
}

#[test]
fn create_route_rejects_invalid_status() {
    let svc = service("/api", vec![source("/a", "GET", "text/plain", "a.txt", 600)]);
    match create_route(&svc) {
        Err(ConfigError::InvalidStatus { status }) => assert_eq!(status, 600),
        other => panic!("unexpected {:?}", other),
    }
}

#[test]
fn register_route_one_entry_per_key() {
    let services = vec![
        service(
            "/mock",
            vec![
                source("/ping", "GET", "application/json", "ping.json", 200),
                source("/ping", "POST", "application/json", "post.json", 201),
            ],
        ),
        service("/other", vec![source("/ping", "GET", "text/plain", "other.txt", 200)]),
    ];
    let table = register_route(&services).unwrap();
    assert_eq!(table.routes().len(), 3);
    let get = table.lookup(Method::Get, &"/mock/ping".to_string()).unwrap();
    assert_eq!(get.response, "ping.json");
    let post = table.lookup(Method::Post, &"/mock/ping".to_string()).unwrap();
    assert_eq!(post.status, 201);
    let other = table.lookup(Method::Get, &"/other/ping".to_string()).unwrap();
    assert_eq!(other.content_type, "text/plain");
}

#[test]
fn register_route_duplicate_key_last_write_wins() {
    let services = vec![
        service("/mock", vec![source("/ping", "GET", "application/json", "first.json", 200)]),
        service(
            "/mo",
            vec![
                source("ck/ping", "GET", "text/html", "second.html", 202),
                source("/x", "PUT", "text/plain", "x.txt", 204),
            ],
        ),
    ];
    let table = register_route(&services).unwrap();
    assert_eq!(table.routes().len(), 2);
    let rule = table.lookup(Method::Get, &"/mock/ping".to_string()).unwrap();
    assert_eq!(rule.response, "second.html");
    assert_eq!(rule.status, 202);
    assert_eq!(rule.content_type, "text/html");
}

#[test]
fn register_route_distinguishes_slash_placement() {
    let services = vec![
        service("/api", vec![source("/users", "GET", "text/plain", "1.txt", 200)]),
        service("/api/", vec![source("/users", "GET", "text/plain", "2.txt", 200)]),
        service("/api", vec![source("users", "GET", "text/plain", "3.txt", 200)]),
    ];
    let table = register_route(&services).unwrap();
    assert_eq!(table.routes().len(), 3);
    assert_eq!(table.lookup(Method::Get, &"/api/users".to_string()).unwrap().response, "1.txt");
    assert_eq!(table.lookup(Method::Get, &"/api//users".to_string()).unwrap().response, "2.txt");
    assert_eq!(table.lookup(Method::Get, &"/apiusers".to_string()).unwrap().response, "3.txt");
}

#[test]
fn register_route_unconfigured_lookup_is_none() {
    let services = vec![service("/mock", vec![source("/ping", "GET", "application/json", "ping.json", 200)])];
    let table = register_route(&services).unwrap();
    assert!(table.lookup(Method::Post, &"/mock/ping".to_string()).is_none());
    assert!(table.lookup(Method::Get, &"/mock/pong".to_string()).is_none());
}

#[test]
fn register_route_reports_first_fault_across_services() {
    let services = vec![
        service("/a", vec![source("/ok", "GET", "text/plain", "ok.txt", 200)]),
        service("/b", vec![source("/bad", "GET", "text/plain", "bad.txt", 42)]),
        service("/c", vec![source("/worse", "TRACE", "text/plain", "w.txt", 200)]),
    ];
    match register_route(&services) {
        Err(ConfigError::InvalidStatus { status }) => assert_eq!(status, 42),
        other => panic!("unexpected {:?}", other.err()),
    }
}

#[test]
fn register_route_empty_configuration() {
    let table = register_route(&vec![]).unwrap();
    assert_eq!(table.routes().len(), 0);
}

#[test]
fn route_key_is_method_space_path() {
    assert_eq!(route_key(Method::Get, &"/mock/ping".to_string()), "GET /mock/ping");
    assert_eq!(route_key(Method::Patch, &"".to_string()), "PATCH ");
    assert_ne!(
        route_key(Method::Get, &"/mock/ping".to_string()),
        route_key(Method::Post, &"/mock/ping".to_string())
    );
}

#[test]
fn bind_address_joins_host_and_port() {
    let settings = Settings {
        service: Identity {
            name: "ngakalin".to_string(),
            version: "1".to_string(),
            host: "127.0.0.1".to_string(),
            port: "8080".to_string(),
        },
        response: ResponseFile { config_file: "endpoints.yaml".to_string() },
    };
    assert_eq!(settings.bind_address(), "127.0.0.1:8080");
}
