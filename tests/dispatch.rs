use ngakalin::dispatch::{begin, error_reply, is_supported_content_type, on_body, on_rule, render, store_is_healthy, Reply, Step, StoreError};
use ngakalin::endpoint::{Service, Source};
use ngakalin::route::{register_route, route_key, Rule};

fn ping_config(content_type: &str) -> Vec<Service> {
    vec![Service {
        name: "mock".to_string(),
        prefix: "/mock".to_string(),
        sources: vec![Source {
            endpoint: "/ping".to_string(),
            method: "GET".to_string(),
            content_type: content_type.to_string(),
            response: "ping.json".to_string(),
            status: 200,
            query_params: Some(vec!["q".to_string()]),
        }],
    }]
}

fn reply_of(step: Step) -> Reply {
    match step {
        Step::Respond { reply } => reply,
        other => panic!("expected a reply, got {:?}", other),
    }
}

fn rule(content_type: &str, response: &str, status: u16) -> Rule {
    Rule { content_type: content_type.to_string(), response: response.to_string(), status }
}

#[test]
fn configured_ping_is_served() {
    let table = register_route(&ping_config("application/json")).unwrap();
    let store: Vec<(String, Rule)> = table
        .routes()
        .iter()
        .map(|r| (route_key(r.method, &r.path), r.rule.clone()))
        .collect();
    let key = match begin(&"GET".to_string(), &"/mock/ping".to_string()) {
        Step::Fetch { key } => key,
        other => panic!("expected a fetch, got {:?}", other),
    };
    assert_eq!(key, "GET /mock/ping");
    let stored = store.iter().find(|(k, _)| *k == key).map(|(_, r)| r.clone());
    let rule = match on_rule(stored.ok_or(StoreError::NotFound)) {
        Step::ReadBody { rule } => rule,
        other => panic!("expected a body read, got {:?}", other),
    };
    assert_eq!(rule.response, "ping.json");
    let reply = on_body(&rule, Some("{\"ok\":true}".to_string()));
    assert_eq!(reply.status, 200);
    assert_eq!(reply.content_type, "application/json");
    assert_eq!(reply.body, "{\"ok\":true}");
}

#[test]
fn undeclared_method_is_not_found() {
    let table = register_route(&ping_config("application/json")).unwrap();
    let key = match begin(&"POST".to_string(), &"/mock/ping".to_string()) {
        Step::Fetch { key } => key,
        other => panic!("expected a fetch, got {:?}", other),
    };
    assert!(table.routes().iter().all(|r| route_key(r.method, &r.path) != key));
    let reply = reply_of(on_rule(Err(StoreError::NotFound)));
    assert_eq!(reply.status, 404);
    assert_eq!(reply.content_type, "application/json");
}

#[test]
fn unknown_method_is_not_found_without_lookup() {
    let reply = reply_of(begin(&"OPTIONS".to_string(), &"/mock/ping".to_string()));
    assert_eq!(reply.status, 404);
}

#[test]
fn unsupported_content_type_has_fixed_body() {
    let reply = reply_of(on_rule(Ok(rule("application/octet-stream", "ping.json", 200))));
    assert_eq!(reply.body, "Unsupported content type");
    assert_eq!(reply.status, 200);
    assert_eq!(reply.content_type, "application/octet-stream");
}

#[test]
fn supported_content_types_read_the_file() {
    for ct in ["application/json", "text/html", "application/xml", "text/plain"] {
        assert!(is_supported_content_type(&ct.to_string()));
        match on_rule(Ok(rule(ct, "body.txt", 201))) {
            Step::ReadBody { rule } => {
                assert_eq!(rule.content_type, ct);
                assert_eq!(rule.response, "body.txt");
                assert_eq!(rule.status, 201);
            },
            other => panic!("expected a body read, got {:?}", other),
        }
    }
    assert!(!is_supported_content_type(&"Application/JSON".to_string()));
}

#[test]
fn body_is_read_for_each_request() {
    let r = rule("text/plain", "body.txt", 200);
    let first = on_body(&r, Some("one".to_string()));
    let second = on_body(&r, Some("two".to_string()));
    assert_eq!(first.body, "one");
    assert_eq!(second.body, "two");
    assert_ne!(first.body, second.body);
}

#[test]
fn render_keeps_status_type_and_contents() {
    let reply = render(&rule("application/xml", "a.xml", 418), "<a/>".to_string());
    assert_eq!(reply.status, 418);
    assert_eq!(reply.content_type, "application/xml");
    assert_eq!(reply.body, "<a/>");
}

#[test]
fn unreadable_body_file_is_500() {
    let reply = on_body(&rule("application/json", "missing.json", 200), None);
    assert_eq!(reply.status, 500);
    assert_eq!(reply.body, "cannot read response file: missing.json");
}

#[test]
fn unreachable_store_is_502() {
    let reply = reply_of(on_rule(Err(StoreError::Unavailable)));
    assert_eq!(reply.status, 502);
}

#[test]
fn corrupt_rule_is_500() {
    let reply = reply_of(on_rule(Err(StoreError::CorruptData)));
    assert_eq!(reply.status, 500);
    assert_eq!(error_reply(StoreError::NotFound).status, 404);
}

#[test]
fn health_check_compares_values() {
    assert!(store_is_healthy(&"bar".to_string(), &"bar".to_string()));
    assert!(!store_is_healthy(&"bar".to_string(), &"baz".to_string()));
}
