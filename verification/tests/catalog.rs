use gateway::catalog::{BackendType, Catalog, ConfigError, ConfigFile, ServerConfig};

fn server(id: &str, kind: BackendType, base_url: &str) -> ServerConfig {
    ServerConfig {
        id: id.to_string(),
        name: String::new(),
        kind,
        base_url: base_url.to_string(),
        username: String::new(),
        password: String::new(),
    }
}

fn two_backends(default: &str) -> ConfigFile {
    ConfigFile {
        default_server_id: default.to_string(),
        servers: vec![
            server("a", BackendType::Qbit, "http://h1:8080"),
            server("b", BackendType::Trans, "http://h2:9091"),
        ],
    }
}

fn load_err(cfg: &ConfigFile) -> ConfigError {
    match Catalog::load(cfg) {
        Ok(_) => panic!("the configuration should be refused"),
        Err(e) => e,
    }
}

#[test]
fn load_keeps_document_order_and_named_default() {
    let catalog = Catalog::load(&two_backends("b")).expect("loads");
    assert_eq!(catalog.len(), 2);
    assert_eq!(catalog.default_id(), "b");
    assert_eq!(catalog.entry_at(0).cfg.id, "a");
    assert_eq!(catalog.entry_at(1).cfg.id, "b");
}

#[test]
fn load_defaults_to_the_first_entry() {
    let catalog = Catalog::load(&two_backends("")).expect("loads");
    assert_eq!(catalog.default_id(), "a");
    let blank = Catalog::load(&two_backends("  \t")).expect("loads");
    assert_eq!(blank.default_id(), "a");
}

#[test]
fn load_trims_every_text_and_defaults_the_name() {
    let cfg = ConfigFile {
        default_server_id: " a ".to_string(),
        servers: vec![ServerConfig {
            id: "  a ".to_string(),
            name: "   ".to_string(),
            kind: BackendType::Qbit,
            base_url: " http://h1:8080 ".to_string(),
            username: " admin ".to_string(),
            password: " secret\n".to_string(),
        }],
    };
    let catalog = Catalog::load(&cfg).expect("loads");
    let entry = catalog.entry_at(0);
    assert_eq!(entry.cfg.id, "a");
    assert_eq!(entry.cfg.name, "a");
    assert_eq!(entry.cfg.base_url, "http://h1:8080");
    assert_eq!(entry.cfg.username, "admin");
    assert_eq!(entry.cfg.password, "secret");
    assert_eq!(entry.cfg.kind, BackendType::Qbit);
    assert_eq!(catalog.default_id(), "a");
}

#[test]
fn load_keeps_a_given_name() {
    let mut cfg = two_backends("");
    cfg.servers[0].name = " Main box ".to_string();
    let catalog = Catalog::load(&cfg).expect("loads");
    assert_eq!(catalog.entry_at(0).cfg.name, "Main box");
    assert_eq!(catalog.entry_at(1).cfg.name, "b");
}

#[test]
fn load_derives_the_origin() {
    let cfg = ConfigFile {
        default_server_id: String::new(),
        servers: vec![
            server("a", BackendType::Qbit, "http://h1:8080/qb/"),
            server("b", BackendType::Trans, "https://Example.COM"),
            server("c", BackendType::Trans, "http://[::1]:9091/"),
            server("d", BackendType::Trans, "http://example.com:80/"),
        ],
    };
    let catalog = Catalog::load(&cfg).expect("loads");
    assert_eq!(catalog.entry_at(0).origin, "http://h1:8080");
    assert_eq!(catalog.entry_at(1).origin, "https://example.com");
    assert_eq!(catalog.entry_at(2).origin, "http://[::1]:9091");
    assert_eq!(catalog.entry_at(3).origin, "http://example.com");
}

#[test]
fn load_refuses_an_empty_list() {
    let cfg = ConfigFile { default_server_id: String::new(), servers: Vec::new() };
    assert_eq!(load_err(&cfg), ConfigError::EmptyServers);
}

#[test]
fn load_refuses_an_empty_id() {
    let mut cfg = two_backends("");
    cfg.servers[1].id = "   ".to_string();
    assert_eq!(load_err(&cfg), ConfigError::MissingId { index: 1 });
}

#[test]
fn load_refuses_an_empty_base_url() {
    let mut cfg = two_backends("");
    cfg.servers[0].base_url = " ".to_string();
    assert_eq!(load_err(&cfg), ConfigError::MissingBaseUrl { index: 0 });
}

#[test]
fn load_refuses_a_repeated_id() {
    let mut cfg = two_backends("");
    cfg.servers[1].id = " a".to_string();
    assert_eq!(load_err(&cfg), ConfigError::DuplicateId { index: 1 });
}

#[test]
fn load_refuses_a_base_url_that_does_not_parse() {
    let mut cfg = two_backends("");
    cfg.servers[1].base_url = "h2:9091/path with no scheme".to_string();
    assert_eq!(load_err(&cfg), ConfigError::InvalidBaseUrl { index: 1 });
    let mut relative = two_backends("");
    relative.servers[1].base_url = "/just/a/path".to_string();
    assert_eq!(load_err(&relative), ConfigError::InvalidBaseUrl { index: 1 });
    let mut garbage = two_backends("");
    garbage.servers[0].base_url = "http://".to_string();
    assert_eq!(load_err(&garbage), ConfigError::InvalidBaseUrl { index: 0 });
}

#[test]
fn load_refuses_a_base_url_without_host() {
    let mut cfg = two_backends("");
    cfg.servers[0].base_url = "unix:/run/foo.socket".to_string();
    assert_eq!(load_err(&cfg), ConfigError::InvalidBaseUrl { index: 0 });
    let mut data = two_backends("");
    data.servers[1].base_url = "data:text/plain,Stuff".to_string();
    assert_eq!(load_err(&data), ConfigError::InvalidBaseUrl { index: 1 });
}

#[test]
fn load_refuses_an_unknown_default() {
    assert_eq!(load_err(&two_backends("c")), ConfigError::UnknownDefault);
}

#[test]
fn load_reports_the_first_fault_in_document_order() {
    let mut cfg = two_backends("nowhere");
    cfg.servers[0].base_url = String::new();
    cfg.servers[1].id = String::new();
    assert_eq!(load_err(&cfg), ConfigError::MissingBaseUrl { index: 0 });
}

#[test]
fn load_checks_the_empty_base_url_before_the_repeated_id() {
    let mut cfg = two_backends("");
    cfg.servers[1].id = "a".to_string();
    cfg.servers[1].base_url = String::new();
    assert_eq!(load_err(&cfg), ConfigError::MissingBaseUrl { index: 1 });
}

#[test]
fn selected_id_follows_a_valid_signal() {
    let catalog = Catalog::load(&two_backends("a")).expect("loads");
    assert_eq!(catalog.selected_id(Some("b")), "b");
    assert_eq!(catalog.selected_id(Some("  b ")), "b");
    assert_eq!(catalog.selected_id(Some("a")), "a");
}

#[test]
fn selected_id_falls_back_to_the_default() {
    let catalog = Catalog::load(&two_backends("b")).expect("loads");
    assert_eq!(catalog.selected_id(None), "b");
    assert_eq!(catalog.selected_id(Some("")), "b");
    assert_eq!(catalog.selected_id(Some("   ")), "b");
    assert_eq!(catalog.selected_id(Some("removed")), "b");
    assert_eq!(catalog.selected_id(Some("A")), "b");
}

#[test]
fn pick_always_returns_a_configured_entry() {
    let catalog = Catalog::load(&two_backends("a")).expect("loads");
    for signal in [None, Some(""), Some(" "), Some("gone"), Some("a"), Some("b"), Some(" b\n")] {
        let entry = catalog.pick(signal);
        assert!(entry.cfg.id == "a" || entry.cfg.id == "b");
        assert!(catalog.contains(&entry.cfg.id));
        assert_eq!(entry.cfg.id, catalog.selected_id(signal));
    }
    assert_eq!(catalog.pick(Some("b")).base.href, "http://h2:9091/");
    assert_eq!(catalog.pick(Some("zzz")).base.href, "http://h1:8080/");
}

#[test]
fn find_and_contains_take_the_id_as_it_stands() {
    let catalog = Catalog::load(&two_backends("a")).expect("loads");
    assert!(catalog.contains("a"));
    assert!(!catalog.contains(" a"));
    assert!(!catalog.contains(""));
    assert_eq!(catalog.find("b").map(|e| e.cfg.kind), Some(BackendType::Trans));
    assert!(catalog.find("c").is_none());
}

#[test]
fn a_cloned_entry_is_the_same_entry() {
    let catalog = Catalog::load(&two_backends("a")).expect("loads");
    let entry = catalog.pick(Some("b")).clone();
    assert_eq!(entry.cfg.id, "b");
    assert_eq!(entry.origin, "http://h2:9091");
    assert_eq!(entry.base.known_port, Some(9091));
}

#[test]
fn a_cloned_catalog_is_the_same_catalog() {
    let catalog = Catalog::load(&two_backends("b")).expect("loads");
    let snapshot = catalog.clone();
    assert_eq!(snapshot.len(), 2);
    assert_eq!(snapshot.default_id(), "b");
    for i in 0..snapshot.len() {
        assert_eq!(snapshot.entry_at(i).cfg.id, catalog.entry_at(i).cfg.id);
        assert_eq!(snapshot.entry_at(i).origin, catalog.entry_at(i).origin);
        assert_eq!(snapshot.entry_at(i).base.href, catalog.entry_at(i).base.href);
    }
    assert_eq!(snapshot.selected_id(Some("a")), "a");
}
