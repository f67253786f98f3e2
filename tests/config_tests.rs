use anthropic_http_proxy::{Config, EndpointConfig};

#[test]
fn test_get_endpoint_proxies_empty() {
    let config = Config::default();
    let endpoints = config.get_endpoint_proxies();
    assert!(endpoints.is_empty());
}

#[test]
fn test_get_endpoint_proxies_with_config() {
    let mut config = Config::default();
    let endpoints = vec![(
        "test".to_string(),
        EndpointConfig {
            proxy_url: Some("http://proxy.example.com:8080".to_string()),
            target_base: None,
        },
    )];
    config.endpoints = endpoints;

    let endpoints = config.get_endpoint_proxies();
    assert_eq!(endpoints.len(), 1);
    assert_eq!(endpoints[0], ("test".to_string(), "http://proxy.example.com:8080".to_string()));
}

#[test]
fn proxies_listed_in_route_order_skipping_direct_routes() {
    let mut config = Config::default();
    config.endpoints = vec![
        ("a".to_string(), EndpointConfig { proxy_url: Some("http://p1:1".to_string()), target_base: None }),
        ("b".to_string(), EndpointConfig { proxy_url: None, target_base: Some("http://b".to_string()) }),
        ("c".to_string(), EndpointConfig { proxy_url: Some("http://p3:3".to_string()), target_base: None }),
    ];
    let got = config.get_endpoint_proxies();
    assert_eq!(
        got,
        vec![
            ("a".to_string(), "http://p1:1".to_string()),
            ("c".to_string(), "http://p3:3".to_string()),
        ]
    );
}

#[test]
fn default_config_values() {
    let config = Config::default();
    assert_eq!(config.server.port, Some(8811));
    assert_eq!(config.server.target_base, Some("https://api.anthropic.com".to_string()));
    assert!(config.endpoints.is_empty());
}

#[test]
fn target_base_prefers_route_then_server() {
    let mut config = Config::default();
    config.endpoints = vec![
        ("own".to_string(), EndpointConfig { proxy_url: None, target_base: Some("http://own.example".to_string()) }),
        ("bare".to_string(), EndpointConfig { proxy_url: None, target_base: None }),
    ];
    assert_eq!(config.get_endpoint_target_base("own"), Some("http://own.example".to_string()));
    assert_eq!(config.get_endpoint_target_base("bare"), Some("https://api.anthropic.com".to_string()));
    assert_eq!(config.get_endpoint_target_base("missing"), Some("https://api.anthropic.com".to_string()));
    config.server.target_base = None;
    assert_eq!(config.get_endpoint_target_base("bare"), None);
    assert_eq!(config.get_endpoint_target_base("own"), Some("http://own.example".to_string()));
}

#[test]
fn duplicate_prefixes_are_detected() {
    let mut config = Config::default();
    assert!(config.has_unique_prefixes());
    config.endpoints = vec![
        ("a".to_string(), EndpointConfig { proxy_url: None, target_base: None }),
        ("b".to_string(), EndpointConfig { proxy_url: None, target_base: None }),
    ];
    assert!(config.has_unique_prefixes());
    config.endpoints.push(("a".to_string(), EndpointConfig { proxy_url: None, target_base: None }));
    assert!(!config.has_unique_prefixes());
}
