use anthropic_http_proxy::exchange::{outbound_method, route_prefix};
use anthropic_http_proxy::headers::{forward_headers, is_host};
use anthropic_http_proxy::transport::create_clients;
use anthropic_http_proxy::{
    conclude, extract_path, Config, ConfigurationError, EndpointConfig, Fault, ProxyService,
    Transport, TransportPool, UpstreamReply, UpstreamResponse,
};
use axum::http::Uri;

fn direct(key: &str) -> Transport {
    Transport { key: key.to_string(), proxy_url: None, timeout_secs: 3600, client: reqwest::Client::new() }
}

fn service_with(endpoints: Vec<(String, EndpointConfig)>) -> ProxyService {
    let mut config = Config::default();
    config.endpoints = endpoints;
    ProxyService::new_with_config(config).expect("pool builds")
}

#[test]
fn test_extract_path_valid() {
    let uri = "/test/v1/messages".parse::<Uri>().unwrap();
    let result = extract_path(uri.path(), "test");

    assert!(result.is_ok());
    assert_eq!(result.unwrap(), "/v1/messages");
}

#[test]
fn test_extract_path_invalid_prefix() {
    let uri = "/wrong/v1/messages".parse::<Uri>().unwrap();
    let result = extract_path(uri.path(), "test");

    assert!(result.is_err());
    assert_eq!(result.unwrap_err().status_code(), 400);
}

#[test]
fn test_extract_path_empty_path() {
    let uri = "/test/v1".parse::<Uri>().unwrap();
    let result = extract_path(uri.path(), "test");

    assert!(result.is_ok());
    assert_eq!(result.unwrap(), "/v1");
}

#[test]
fn test_get_client_for_endpoint_existing() {
    let mut clients = TransportPool::new(direct("default"));
    let client = reqwest::Client::new();
    clients.insert(Transport {
        key: "test".to_string(),
        proxy_url: None,
        timeout_secs: 3600,
        client: client.clone(),
    });

    let proxy_service = ProxyService { clients, config: Config::default() };

    let _result = proxy_service.clients.select("test");
    assert_eq!(proxy_service.clients.slot_for("test"), 1);
}

#[test]
fn test_get_client_for_endpoint_default() {
    let clients = TransportPool::new(direct("default"));

    let proxy_service = ProxyService { clients, config: Config::default() };

    let _result = proxy_service.clients.select("nonexistent");
    assert_eq!(proxy_service.clients.slot_for("nonexistent"), 0);
}

#[test]
fn test_proxy_service_new() {
    let result = ProxyService::new();
    assert!(result.is_ok());

    let service = result.unwrap();
    assert!(service.clients.find("default").is_some());
    assert_eq!(service.config.server.target_base, Some("https://api.anthropic.com".to_string()));
    assert_eq!(service.config.server.port, Some(8811));
}

#[test]
fn test_proxy_service_creation() {
    let result = ProxyService::new();
    assert!(result.is_ok());
}

#[test]
fn extract_path_keeps_nested_suffix() {
    assert_eq!(extract_path("/proxy/v1/api/test", "proxy").unwrap(), "/v1/api/test");
    assert_eq!(extract_path("/api/v1/", "api").unwrap(), "/v1/");
    assert_eq!(extract_path("/api/v", "api").unwrap_err(), Fault::BadRequest);
    assert_eq!(extract_path("", "api").unwrap_err(), Fault::BadRequest);
    assert_eq!(extract_path("/api/v2/x", "api").unwrap_err(), Fault::BadRequest);
}

#[test]
fn unknown_prefix_selects_default_transport() {
    let service = service_with(vec![(
        "internal".to_string(),
        EndpointConfig { proxy_url: Some("http://proxy.example.com:8080".to_string()), target_base: None },
    )]);
    assert_eq!(
        service.clients.slot_for("unknown-prefix"),
        service.clients.slot_for("default")
    );
}

#[test]
fn proxied_prefix_has_its_own_transport() {
    let service = service_with(vec![
        (
            "internal".to_string(),
            EndpointConfig { proxy_url: Some("http://proxy.example.com:8080".to_string()), target_base: None },
        ),
        ("api".to_string(), EndpointConfig { proxy_url: None, target_base: None }),
    ]);
    let internal = service.clients.slot_for("internal");
    assert_ne!(internal, service.clients.slot_for("api"));
    assert_ne!(internal, service.clients.slot_for("default"));
    assert_ne!(internal, service.clients.slot_for("other"));
    let entry = &service.clients.entries[internal];
    assert_eq!(entry.proxy_url, Some("http://proxy.example.com:8080".to_string()));
    assert_eq!(entry.timeout_secs, 3600);
    let default = &service.clients.entries[service.clients.slot_for("default")];
    assert_eq!(default.proxy_url, None);
    assert_eq!(default.timeout_secs, 3600);
}

#[test]
fn route_named_default_with_proxy_replaces_direct_default() {
    let service = service_with(vec![(
        "default".to_string(),
        EndpointConfig { proxy_url: Some("http://proxy.example.com:8080".to_string()), target_base: None },
    )]);
    assert_eq!(service.clients.entries.len(), 1);
    let slot = service.clients.slot_for("default");
    assert_eq!(service.clients.slot_for("anything"), slot);
    assert_eq!(
        service.clients.entries[slot].proxy_url,
        Some("http://proxy.example.com:8080".to_string())
    );
}

#[test]
fn malformed_proxy_url_fails_service_creation() {
    let mut config = Config::default();
    config.endpoints = vec![
        ("good".to_string(), EndpointConfig { proxy_url: Some("http://proxy.example.com:8080".to_string()), target_base: None }),
        ("bad".to_string(), EndpointConfig { proxy_url: Some("http://[bad-host".to_string()), target_base: None }),
    ];
    match ProxyService::new_with_config(config) {
        Err(e) => assert_eq!(e, ConfigurationError::InvalidProxy("bad".to_string())),
        Ok(_) => panic!("a malformed proxy URL must not build"),
    }
}

#[test]
fn malformed_proxy_url_fails_the_pool() {
    let mut config = Config::default();
    config.endpoints = vec![(
        "bad".to_string(),
        EndpointConfig { proxy_url: Some("http://[bad-host".to_string()), target_base: None },
    )];
    match create_clients(&config) {
        Err(e) => assert_eq!(e, ConfigurationError::InvalidProxy("bad".to_string())),
        Ok(_) => panic!("a malformed proxy URL must not build"),
    }
}

#[test]
fn host_header_is_dropped_and_others_kept() {
    let headers = vec![
        ("host".to_string(), Some("localhost:8811".to_string())),
        ("content-type".to_string(), Some("application/json".to_string())),
        ("Host".to_string(), Some("x".to_string())),
        ("x-raw".to_string(), None),
    ];
    let out = forward_headers(&headers);
    assert_eq!(
        out,
        vec![
            ("content-type".to_string(), "application/json".to_string()),
            ("x-raw".to_string(), String::new()),
        ]
    );
    assert!(is_host("HoSt"));
    assert!(!is_host("hosts"));
}

#[test]
fn method_passes_through_unchanged() {
    assert_eq!(outbound_method("DELETE").unwrap(), "DELETE");
    assert_eq!(outbound_method("PROPFIND").unwrap(), "PROPFIND");
    assert_eq!(outbound_method("").unwrap_err(), Fault::MethodNotSupported);
    assert_eq!(outbound_method("GE T").unwrap_err().status_code(), 501);
}

#[test]
fn routes_by_first_segment() {
    assert_eq!(route_prefix("/api/v1/messages").unwrap(), "api");
    assert_eq!(route_prefix("/api/v1").unwrap(), "api");
    assert_eq!(route_prefix("/api/v1x").unwrap_err(), Fault::NotFound);
    assert_eq!(route_prefix("/nothing/here").unwrap_err().status_code(), 404);
    assert_eq!(route_prefix("//v1/x").unwrap_err(), Fault::NotFound);
    assert_eq!(route_prefix("/").unwrap_err(), Fault::NotFound);
}

#[test]
fn scenario_get_messages_relays_upstream_ok() {
    let mut config = Config::default();
    config.server.target_base = Some("http://127.0.0.1:9".to_string());
    let service = ProxyService::new_with_config(config).unwrap();
    let headers = vec![("host".to_string(), Some("proxy".to_string()))];
    let (prefix, req) = service.dispatch("/api/v1/messages", None, "GET", &headers).unwrap();
    assert_eq!(prefix, "api");
    assert_eq!(req.url, "http://127.0.0.1:9/v1/messages");
    assert_eq!(req.method, "GET");
    assert!(req.headers.is_empty());
    let req = req.with_body(Some(Vec::new())).unwrap();
    assert!(req.body.is_none());
    let reply = UpstreamReply::Received(UpstreamResponse {
        status: 200,
        headers: vec![("content-type".to_string(), b"application/json".to_vec())],
        body: b"{\"ok\":true}".to_vec(),
    });
    let resp = conclude(reply).unwrap();
    assert_eq!(resp.status, 200);
    assert_eq!(resp.body, b"{\"ok\":true}".to_vec());
    assert_eq!(resp.headers[0].1, b"application/json".to_vec());
}

#[test]
fn scenario_wrong_prefix_is_bad_request() {
    let service = ProxyService::new().unwrap();
    let err = service.prepare("api", "/wrong/v1/x", None, "GET", &Vec::new()).unwrap_err();
    assert_eq!(err, Fault::BadRequest);
    assert_eq!(err.status_code(), 400);
}

#[test]
fn scenario_unrouted_path_is_not_found() {
    let service = ProxyService::new().unwrap();
    let err = service.dispatch("/nowhere", None, "GET", &Vec::new()).unwrap_err();
    assert_eq!(err.status_code(), 404);
}

#[test]
fn scenario_unreachable_upstream_is_bad_gateway() {
    let err = conclude(UpstreamReply::Unreachable).unwrap_err();
    assert_eq!(err, Fault::BadGateway);
    assert_eq!(err.status_code(), 502);
    assert_eq!(conclude(UpstreamReply::BodyUnreadable).unwrap_err().status_code(), 500);
}

#[test]
fn upstream_status_is_relayed_for_every_class() {
    for status in [200u16, 204, 301, 404, 418, 500, 503] {
        let resp = conclude(UpstreamReply::Received(UpstreamResponse {
            status,
            headers: Vec::new(),
            body: Vec::new(),
        }))
        .unwrap();
        assert_eq!(resp.status, status);
    }
}

#[test]
fn prepare_builds_url_with_query_and_route_base() {
    let service = service_with(vec![(
        "proxy".to_string(),
        EndpointConfig { proxy_url: None, target_base: Some("http://upstream.local".to_string()) },
    )]);
    let req = service
        .prepare("proxy", "/proxy/v1/api/test", Some("a=1&b=2"), "POST", &Vec::new())
        .unwrap();
    assert_eq!(req.url, "http://upstream.local/v1/api/test?a=1&b=2");
    assert_eq!(req.method, "POST");
    let req = req.with_body(Some(b"payload".to_vec())).unwrap();
    assert_eq!(req.body, Some(b"payload".to_vec()));
    let other = service.prepare("api", "/api/v1", None, "GET", &Vec::new()).unwrap();
    assert_eq!(other.url, "https://api.anthropic.com/v1");
}

#[test]
fn unreadable_inbound_body_is_internal_error() {
    let service = ProxyService::new().unwrap();
    let req = service.prepare("api", "/api/v1/x", None, "PUT", &Vec::new()).unwrap();
    assert_eq!(req.with_body(None).unwrap_err(), Fault::InternalError);
}
