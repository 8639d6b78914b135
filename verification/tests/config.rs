use gateway::catalog::{BackendType, Catalog, ConfigError, ConfigFile, ServerConfig};
use gateway::config::{
    handle_config_get, handle_config_update, handle_select, install_catalog, swap_catalog,
    ConfigUpdateRequest, ConfigUpdateServer, SelectError, UpdateError,
};
use gateway::proxy::BAD_REQUEST;
use gateway::session::{LoginStep, QbitSessions};

fn stored(id: &str, kind: BackendType, base_url: &str, user: &str, pass: &str) -> ServerConfig {
    ServerConfig {
        id: id.to_string(),
        name: String::new(),
        kind,
        base_url: base_url.to_string(),
        username: user.to_string(),
        password: pass.to_string(),
    }
}

fn live_catalog() -> Catalog {
    let cfg = ConfigFile {
        default_server_id: "a".to_string(),
        servers: vec![
            stored("a", BackendType::Qbit, "http://h1:8080", "admin", "s3cret"),
            stored("b", BackendType::Trans, "http://h2:9091", "", ""),
        ],
    };
    Catalog::load(&cfg).expect("loads")
}

fn given(id: &str, kind: BackendType, base_url: &str, user: &str, pass: Option<&str>) -> ConfigUpdateServer {
    ConfigUpdateServer {
        id: id.to_string(),
        name: String::new(),
        kind,
        base_url: base_url.to_string(),
        username: user.to_string(),
        password: pass.map(|p| p.to_string()),
    }
}

fn update_of(default: &str, servers: Vec<ConfigUpdateServer>) -> ConfigUpdateRequest {
    ConfigUpdateRequest { default_server_id: default.to_string(), servers }
}

fn accepted(req: &ConfigUpdateRequest) -> ConfigFile {
    match handle_config_update(&live_catalog(), req) {
        Ok(cfg) => cfg,
        Err(e) => panic!("refused: {e:?}"),
    }
}

fn refused(req: &ConfigUpdateRequest) -> UpdateError {
    match handle_config_update(&live_catalog(), req) {
        Ok(_) => panic!("the update should be refused"),
        Err(e) => e,
    }
}

#[test]
fn an_omitted_password_keeps_the_stored_one() {
    let req = update_of("", vec![given("a", BackendType::Qbit, "http://h1:8080", "admin", None)]);
    let cfg = accepted(&req);
    assert_eq!(cfg.servers[0].password, "s3cret");
    assert_eq!(cfg.servers[0].username, "admin");
    assert_eq!(cfg.default_server_id, "a");
}

#[test]
fn a_given_password_overwrites_the_stored_one() {
    let req =
        update_of("", vec![given("a", BackendType::Qbit, "http://h1:8080", "admin", Some(" new "))]);
    assert_eq!(accepted(&req).servers[0].password, "new");
}

#[test]
fn an_explicit_empty_password_clears_the_stored_one() {
    let req = update_of("", vec![given("a", BackendType::Qbit, "http://h1:8080", "admin", Some(""))]);
    assert_eq!(accepted(&req).servers[0].password, "");
}

#[test]
fn an_omitted_password_for_a_new_id_is_empty() {
    let req = update_of("", vec![given("new", BackendType::Trans, "http://h9:9091", "", None)]);
    assert_eq!(accepted(&req).servers[0].password, "");
}

#[test]
fn the_stored_password_is_found_by_the_trimmed_id() {
    let req = update_of("", vec![given("  a\t", BackendType::Qbit, "http://h1:8080", "", None)]);
    let cfg = accepted(&req);
    assert_eq!(cfg.servers[0].id, "a");
    assert_eq!(cfg.servers[0].password, "s3cret");
}

#[test]
fn a_form_login_backend_without_credentials_is_refused() {
    let cleared = update_of("", vec![given("a", BackendType::Qbit, "http://h1:8080", " ", Some(""))]);
    assert_eq!(refused(&cleared), UpdateError::MissingCredentials);
    let fresh = update_of("", vec![given("c", BackendType::Qbit, "http://h3:8080", "", None)]);
    assert_eq!(refused(&fresh), UpdateError::MissingCredentials);
    let moved = update_of("", vec![given("b", BackendType::Qbit, "http://h2:9091", "", None)]);
    assert_eq!(refused(&moved), UpdateError::MissingCredentials);
}

#[test]
fn a_basic_auth_backend_needs_no_credentials() {
    let req = update_of("", vec![given("b", BackendType::Trans, "http://h2:9091", "", Some(""))]);
    assert_eq!(accepted(&req).servers[0].kind, BackendType::Trans);
}

#[test]
fn an_update_is_trimmed_and_names_default_to_ids() {
    let mut server = given(" n1 ", BackendType::Trans, " http://h5:1234/x ", " u ", Some(" p "));
    server.name = "  ".to_string();
    let mut named = given("n2", BackendType::Trans, "http://h6", "", None);
    named.name = " Second ".to_string();
    let cfg = accepted(&update_of(" n2 ", vec![server, named]));
    assert_eq!(cfg.default_server_id, "n2");
    assert_eq!(cfg.servers.len(), 2);
    assert_eq!(cfg.servers[0].id, "n1");
    assert_eq!(cfg.servers[0].name, "n1");
    assert_eq!(cfg.servers[0].base_url, "http://h5:1234/x");
    assert_eq!(cfg.servers[0].username, "u");
    assert_eq!(cfg.servers[0].password, "p");
    assert_eq!(cfg.servers[1].name, "Second");
}

#[test]
fn an_update_without_default_takes_the_first_definition() {
    let req = update_of(
        "  ",
        vec![
            given("z", BackendType::Trans, "http://h1", "", None),
            given("y", BackendType::Trans, "http://h2", "", None),
        ],
    );
    assert_eq!(accepted(&req).default_server_id, "z");
}

#[test]
fn every_update_fault_is_reported() {
    let ok = || given("a", BackendType::Trans, "http://h1:8080", "", None);
    assert_eq!(refused(&update_of("", Vec::new())), UpdateError::EmptyServers);
    assert_eq!(
        refused(&update_of("", vec![given("  ", BackendType::Trans, "http://h1", "", None)])),
        UpdateError::MissingId
    );
    assert_eq!(refused(&update_of("", vec![ok(), ok()])), UpdateError::DuplicateId);
    assert_eq!(
        refused(&update_of("", vec![given("a", BackendType::Trans, " ", "", None)])),
        UpdateError::MissingBaseUrl
    );
    assert_eq!(
        refused(&update_of("", vec![given("a", BackendType::Trans, "no-url", "", None)])),
        UpdateError::InvalidBaseUrl
    );
    assert_eq!(
        refused(&update_of("", vec![given("a", BackendType::Trans, "mailto:x@y", "", None)])),
        UpdateError::InvalidBaseUrl
    );
    assert_eq!(refused(&update_of("missing", vec![ok()])), UpdateError::UnknownDefault);
}

#[test]
fn update_faults_come_in_document_order() {
    let req = update_of(
        "nowhere",
        vec![
            given("a", BackendType::Trans, "", "", None),
            given("", BackendType::Trans, "http://h1", "", None),
        ],
    );
    assert_eq!(refused(&req), UpdateError::MissingBaseUrl);
    let dup_before_url = update_of(
        "",
        vec![
            given("a", BackendType::Trans, "http://h1", "", None),
            given("a", BackendType::Trans, "", "", None),
        ],
    );
    assert_eq!(refused(&dup_before_url), UpdateError::DuplicateId);
}

#[test]
fn refusals_carry_their_reason_and_status() {
    assert_eq!(UpdateError::MissingId.message(), "server.id is required");
    assert_eq!(UpdateError::DuplicateId.message(), "duplicate server id");
    assert_eq!(UpdateError::MissingBaseUrl.message(), "server.baseUrl is required");
    assert_eq!(UpdateError::InvalidBaseUrl.message(), "server.baseUrl is invalid");
    assert_eq!(
        UpdateError::MissingCredentials.message(),
        "qBittorrent server requires username/password"
    );
    assert_eq!(UpdateError::EmptyServers.message(), "servers is empty");
    assert_eq!(UpdateError::UnknownDefault.message(), "defaultServerId not found in servers");
    assert_eq!(UpdateError::MissingCredentials.status(), 400);
    assert_eq!(SelectError::MissingId.message(), "id is required");
    assert_eq!(SelectError::UnknownId.message(), "unknown server id");
    assert_eq!(SelectError::UnknownId.status(), BAD_REQUEST);
}

#[test]
fn an_accepted_update_loads() {
    let req = update_of(
        "b",
        vec![
            given(" a ", BackendType::Qbit, "http://h1:8080", "", None),
            given("b", BackendType::Trans, " http://h2:9091 ", "", Some("")),
        ],
    );
    let cfg = accepted(&req);
    let catalog = Catalog::load(&cfg).expect("loads");
    assert_eq!(catalog.default_id(), "b");
    assert_eq!(catalog.entry_at(0).cfg.password, "s3cret");
}

#[test]
fn a_swap_replaces_the_catalog_and_discards_the_sessions() {
    let mut live = live_catalog();
    let mut sessions = QbitSessions::new();
    let entry = live.pick(Some("a")).clone();
    let ticket = match sessions.ensure_cookie(&entry, false) {
        LoginStep::Login { request } => request,
        _ => panic!("expected a login"),
    };
    let mut reply = axum::http::HeaderMap::new();
    reply.insert("set-cookie", axum::http::HeaderValue::from_static("SID=1"));
    assert!(sessions.complete_login(&ticket, 200, &b"Ok.".to_vec(), &reply).is_ok());
    assert!(matches!(sessions.ensure_cookie(&entry, false), LoginStep::Cached { .. }));

    let req = update_of("", vec![given("a", BackendType::Qbit, "http://h1:8080", "admin", None)]);
    let doc = accepted(&req);
    assert_eq!(swap_catalog(&mut live, &mut sessions, &doc), Ok(()));
    assert_eq!(live.len(), 1);
    assert_eq!(sessions.epoch(), 1);
    let kept = live.pick(None).clone();
    assert_eq!(kept.cfg.password, "s3cret");
    assert!(matches!(sessions.ensure_cookie(&kept, false), LoginStep::Login { .. }));
}

#[test]
fn a_document_that_does_not_load_changes_nothing() {
    let mut live = live_catalog();
    let mut sessions = QbitSessions::new();
    let entry = live.pick(Some("a")).clone();
    let ticket = match sessions.ensure_cookie(&entry, false) {
        LoginStep::Login { request } => request,
        _ => panic!("expected a login"),
    };
    let mut reply = axum::http::HeaderMap::new();
    reply.insert("set-cookie", axum::http::HeaderValue::from_static("SID=1"));
    assert!(sessions.complete_login(&ticket, 200, &b"Ok.".to_vec(), &reply).is_ok());

    let broken = ConfigFile { default_server_id: String::new(), servers: Vec::new() };
    assert_eq!(swap_catalog(&mut live, &mut sessions, &broken), Err(ConfigError::EmptyServers));
    assert_eq!(live.len(), 2);
    assert_eq!(live.default_id(), "a");
    assert_eq!(sessions.epoch(), 0);
    assert!(matches!(sessions.ensure_cookie(&entry, false), LoginStep::Cached { .. }));
}

#[test]
fn the_configuration_view_hides_passwords() {
    let view = handle_config_get(&live_catalog());
    assert_eq!(view.schema, 1);
    assert_eq!(view.default_server_id, "a");
    assert_eq!(view.servers.len(), 2);
    assert_eq!(view.servers[0].id, "a");
    assert_eq!(view.servers[0].name, "a");
    assert_eq!(view.servers[0].kind, BackendType::Qbit);
    assert_eq!(view.servers[0].base_url, "http://h1:8080");
    assert_eq!(view.servers[0].username, "admin");
    assert!(view.servers[0].has_password);
    assert_eq!(view.servers[1].id, "b");
    assert!(!view.servers[1].has_password);
}

#[test]
fn a_selection_sets_the_cookie() {
    let sel = match handle_select(&live_catalog(), " b ") {
        Ok(sel) => sel,
        Err(e) => panic!("refused: {e:?}"),
    };
    assert_eq!(sel.id, "b");
    assert_eq!(
        sel.cookie,
        "tm_server_id=b; Path=/; HttpOnly; SameSite=Lax; Max-Age=31536000"
    );
    assert_eq!(sel.headers.len(), 1);
    assert_eq!(
        sel.headers.get("set-cookie").unwrap(),
        "tm_server_id=b; Path=/; HttpOnly; SameSite=Lax; Max-Age=31536000"
    );
}

#[test]
fn a_selection_must_name_a_backend() {
    assert_eq!(handle_select(&live_catalog(), "").err(), Some(SelectError::MissingId));
    assert_eq!(handle_select(&live_catalog(), " \n").err(), Some(SelectError::MissingId));
    assert_eq!(handle_select(&live_catalog(), "c").err(), Some(SelectError::UnknownId));
    assert_eq!(handle_select(&live_catalog(), "A").err(), Some(SelectError::UnknownId));
}

#[test]
fn an_id_that_no_header_may_hold_is_selected_without_cookie() {
    let cfg = ConfigFile {
        default_server_id: String::new(),
        servers: vec![stored("a\u{7f}b", BackendType::Trans, "http://h1", "", "")],
    };
    let catalog = Catalog::load(&cfg).expect("loads");
    let sel = match handle_select(&catalog, "a\u{7f}b") {
        Ok(sel) => sel,
        Err(e) => panic!("refused: {e:?}"),
    };
    assert_eq!(sel.id, "a\u{7f}b");
    assert!(sel.headers.is_empty());
}

#[test]
fn installing_a_loaded_catalog_swaps_and_discards_the_sessions() {
    let mut live = live_catalog();
    let mut sessions = QbitSessions::new();
    let entry = live.pick(Some("a")).clone();
    let ticket = match sessions.ensure_cookie(&entry, false) {
        LoginStep::Login { request } => request,
        _ => panic!("expected a login"),
    };
    let mut reply = axum::http::HeaderMap::new();
    reply.insert("set-cookie", axum::http::HeaderValue::from_static("SID=1"));
    assert!(sessions.complete_login(&ticket, 200, &b"Ok.".to_vec(), &reply).is_ok());

    let next = Catalog::load(&ConfigFile {
        default_server_id: String::new(),
        servers: vec![stored("z", BackendType::Trans, "http://h9:9091", "", "")],
    })
    .expect("loads");
    install_catalog(&mut live, &mut sessions, next);
    assert_eq!(live.len(), 1);
    assert_eq!(live.default_id(), "z");
    assert_eq!(sessions.epoch(), 1);
    assert_eq!(sessions.session("a"), None);
}

#[test]
fn an_accepted_selection_always_carries_its_cookie() {
    for id in ["a", "b"] {
        let sel = handle_select(&live_catalog(), id).ok().expect("accepted");
        let values: Vec<&str> =
            sel.headers.get_all("set-cookie").iter().map(|v| v.to_str().unwrap()).collect();
        assert_eq!(values, vec![sel.cookie.as_str()]);
        assert_eq!(sel.headers.keys_len(), 1);
    }
}
