use gateway::catalog::{BackendType, Catalog, ConfigFile, ServerConfig};
use gateway::status::{
    dial_target, handle_status, measure_tcp_dial_latency, ProbeResult, FALLBACK_PORT,
    PROBE_BUDGET_MS,
};

fn backend(id: &str, kind: BackendType, base_url: &str) -> ServerConfig {
    ServerConfig {
        id: id.to_string(),
        name: String::new(),
        kind,
        base_url: base_url.to_string(),
        username: String::new(),
        password: String::new(),
    }
}

fn catalog_of(urls: &[(&str, &str)]) -> Catalog {
    let cfg = ConfigFile {
        default_server_id: String::new(),
        servers: urls.iter().map(|(id, url)| backend(id, BackendType::Trans, url)).collect(),
    };
    Catalog::load(&cfg).expect("loads")
}

fn outcome(id: &str, latency_ms: Option<u64>) -> ProbeResult {
    ProbeResult { id: id.to_string(), latency_ms, reachable: latency_ms.is_some() }
}

#[test]
fn the_probe_constants_are_those_of_the_design() {
    assert_eq!(FALLBACK_PORT, 80);
    assert_eq!(PROBE_BUDGET_MS, 1200);
}

#[test]
fn a_backend_is_dialled_at_its_explicit_port() {
    let catalog = catalog_of(&[("a", "http://h1:8080/qb")]);
    assert_eq!(dial_target(&catalog.entry_at(0).base), Some("h1:8080".to_string()));
}

#[test]
fn a_backend_is_dialled_at_the_conventional_port() {
    let catalog = catalog_of(&[("a", "https://example.com"), ("b", "http://example.com")]);
    assert_eq!(dial_target(&catalog.entry_at(0).base), Some("example.com:443".to_string()));
    assert_eq!(dial_target(&catalog.entry_at(1).base), Some("example.com:80".to_string()));
}

#[test]
fn an_unknown_scheme_is_dialled_at_port_80() {
    let catalog = catalog_of(&[("a", "foo://example.com/x")]);
    assert_eq!(dial_target(&catalog.entry_at(0).base), Some("example.com:80".to_string()));
}

#[test]
fn an_ipv6_host_is_dialled_in_brackets() {
    let catalog = catalog_of(&[("a", "http://[::1]:9091/")]);
    assert_eq!(dial_target(&catalog.entry_at(0).base), Some("[::1]:9091".to_string()));
}

#[test]
fn a_url_without_host_is_not_dialled() {
    let mut base = catalog_of(&[("a", "http://h1")]).entry_at(0).base.clone();
    base.host = None;
    assert_eq!(dial_target(&base), None);
}

#[test]
fn an_established_connection_is_reachable_with_latency() {
    let r = measure_tcp_dial_latency("a", Some("h1:8080"), Some(17));
    assert_eq!(r.id, "a");
    assert_eq!(r.latency_ms, Some(17));
    assert!(r.reachable);
    let instant = measure_tcp_dial_latency("a", Some("h1:8080"), Some(0));
    assert_eq!(instant.latency_ms, Some(0));
    assert!(instant.reachable);
}

#[test]
fn a_failed_dial_is_unreachable_without_latency() {
    let failed = measure_tcp_dial_latency("a", Some("h1:8080"), None);
    assert_eq!(failed.latency_ms, None);
    assert!(!failed.reachable);
    let no_host = measure_tcp_dial_latency("a", None, Some(5));
    assert_eq!(no_host.latency_ms, None);
    assert!(!no_host.reachable);
}

#[test]
fn the_report_keeps_the_catalog_order() {
    let catalog = catalog_of(&[("a", "http://h1:8080"), ("b", "http://h2:9091"), ("c", "http://h3")]);
    let results = vec![outcome("c", Some(30)), outcome("a", None), outcome("b", Some(12))];
    let report = handle_status(&catalog, None, &results);
    assert_eq!(report.schema, 1);
    assert_eq!(report.selected_id, "a");
    let ids: Vec<&str> = report.servers.iter().map(|s| s.id.as_str()).collect();
    assert_eq!(ids, vec!["a", "b", "c"]);
    assert_eq!(report.servers[0].latency_ms, None);
    assert!(!report.servers[0].reachable);
    assert_eq!(report.servers[1].latency_ms, Some(12));
    assert!(report.servers[1].reachable);
    assert_eq!(report.servers[2].latency_ms, Some(30));
    assert_eq!(report.servers[1].name, "b");
    assert_eq!(report.servers[1].base_url, "http://h2:9091");
    assert_eq!(report.servers[1].kind, BackendType::Trans);
}

#[test]
fn a_backend_without_outcome_is_unreachable() {
    let catalog = catalog_of(&[("a", "http://h1:8080"), ("b", "http://h2:9091")]);
    let report = handle_status(&catalog, Some("b"), &vec![outcome("b", Some(3))]);
    assert_eq!(report.selected_id, "b");
    assert_eq!(report.servers.len(), 2);
    assert_eq!(report.servers[0].latency_ms, None);
    assert!(!report.servers[0].reachable);
    let none = handle_status(&catalog, Some("gone"), &Vec::new());
    assert_eq!(none.selected_id, "a");
    assert!(none.servers.iter().all(|s| !s.reachable && s.latency_ms.is_none()));
}

#[test]
fn the_last_outcome_for_a_backend_counts() {
    let catalog = catalog_of(&[("a", "http://h1:8080")]);
    let results = vec![outcome("a", Some(5)), outcome("x", Some(1)), outcome("a", None)];
    let report = handle_status(&catalog, None, &results);
    assert_eq!(report.servers[0].latency_ms, None);
    assert!(!report.servers[0].reachable);
}

#[test]
fn the_report_covers_any_number_of_backends() {
    let urls: Vec<(String, String)> =
        (0..40).map(|i| (format!("s{i}"), format!("http://10.0.0.{i}:80{i:02}"))).collect();
    let refs: Vec<(&str, &str)> = urls.iter().map(|(a, b)| (a.as_str(), b.as_str())).collect();
    let catalog = catalog_of(&refs);
    let results: Vec<ProbeResult> = (0..40)
        .map(|i| {
            let target = dial_target(&catalog.entry_at(i).base);
            let elapsed = if i % 3 == 0 { None } else { Some(i as u64) };
            measure_tcp_dial_latency(&catalog.entry_at(i).cfg.id, target.as_deref(), elapsed)
        })
        .collect();
    let report = handle_status(&catalog, None, &results);
    assert_eq!(report.servers.len(), 40);
    for (i, s) in report.servers.iter().enumerate() {
        assert_eq!(s.id, format!("s{i}"));
        assert_eq!(s.reachable, i % 3 != 0);
        assert_eq!(s.latency_ms, if i % 3 == 0 { None } else { Some(i as u64) });
    }
}
