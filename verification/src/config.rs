//! The configuration store: validation of an update against the live
//! catalog with its credential-merge rule, the hot swap of a reloaded
//! catalog, the views of the configuration that leave the gateway, and the
//! selection of a backend.

use vstd::prelude::*;
use axum::http::HeaderMap;
use crate::address::{opt_text, parse_url};
use crate::catalog::{
    BackendType, Catalog, CatalogSpec, ConfigError, ConfigFile, ConfigSpec, ServerConfig,
    ServerSpec, entry_of, fault_at, id_taken, lemma_first_fault_none, load_result, server_views,
    url_usable,
};
use crate::headers::{
    HeaderFault, has_room, header_fields, is_value, no_fields, with_value, empty_headers,
    set_header, lemma_set_cookie_name,
};
use crate::proxy::{utf8, BAD_REQUEST};
use crate::session::QbitSessions;
use crate::text::{chars_of, string_of, push_chars, trim, trimmed, lemma_trimmed_is_trim};

verus! {

/// One backend as an update defines it. A password that is left out
/// stands for the one that is stored.
pub struct ConfigUpdateServer {
    pub id: String,
    pub name: String,
    pub kind: BackendType,
    pub base_url: String,
    pub username: String,
    pub password: Option<String>,
}

/// The mathematical content of a `ConfigUpdateServer`.
pub struct UpdateSpec {
    pub id: Seq<char>,
    pub name: Seq<char>,
    pub kind: BackendType,
    pub base_url: Seq<char>,
    pub username: Seq<char>,
    pub password: Option<Seq<char>>,
}

impl View for ConfigUpdateServer {
    type V = UpdateSpec;

    open spec fn view(&self) -> UpdateSpec {
        UpdateSpec {
            id: self.id@,
            name: self.name@,
            kind: self.kind,
            base_url: self.base_url@,
            username: self.username@,
            password: opt_text(self.password),
        }
    }
}

/// A configuration update.
pub struct ConfigUpdateRequest {
    pub default_server_id: String,
    pub servers: Vec<ConfigUpdateServer>,
}

/// The mathematical content of a `ConfigUpdateRequest`.
pub struct RequestSpec {
    pub default_server_id: Seq<char>,
    pub servers: Seq<UpdateSpec>,
}

impl View for ConfigUpdateRequest {
    type V = RequestSpec;

    open spec fn view(&self) -> RequestSpec {
        RequestSpec {
            default_server_id: self.default_server_id@,
            servers: Seq::new(self.servers@.len(), |i: int| self.servers@[i]@),
        }
    }
}

/// Why an update is refused.
#[derive(Clone, Copy, Debug, PartialEq, Eq, Structural)]
pub enum UpdateError {
    /// A definition has an empty id.
    MissingId,
    /// A definition repeats the id of an earlier one.
    DuplicateId,
    /// A definition has an empty base URL.
    MissingBaseUrl,
    /// A base URL does not parse, or lacks a scheme or a host.
    InvalidBaseUrl,
    /// A backend that logs in with a form has neither a user name nor a
    /// password.
    MissingCredentials,
    /// The update defines no backend.
    EmptyServers,
    /// The default id names no definition.
    UnknownDefault,
}

/// The password that is stored for `id`; empty where the catalog has no
/// such backend.
pub open spec fn stored_password(current: CatalogSpec, id: Seq<char>) -> Seq<char> {
    if current.has_id(id) {
        current.entry(id).cfg.password
    } else {
        Seq::empty()
    }
}

/// The definition that an update amounts to: every text trimmed, an empty
/// name replaced by the id, and the password the one that is given, even
/// where that is empty, or the stored one where none is given.
pub open spec fn merged(current: CatalogSpec, s: UpdateSpec) -> ServerSpec {
    let id = trimmed(s.id);
    let name = trimmed(s.name);
    ServerSpec {
        id,
        name: if name.len() == 0 {
            id
        } else {
            name
        },
        kind: s.kind,
        base_url: trimmed(s.base_url),
        username: trimmed(s.username),
        password: match s.password {
            Some(p) => trimmed(p),
            None => stored_password(current, id),
        },
    }
}

/// Whether one of the definitions before position `i` has, once trimmed,
/// the id `id`.
pub open spec fn update_id_taken(servers: Seq<UpdateSpec>, i: int, id: Seq<char>) -> bool {
    exists|j: int| 0 <= j < i && #[trigger] trimmed(servers[j].id) == id
}

/// What is wrong with the definition at position `i`, given those before
/// it; nothing where it is in order.
pub open spec fn update_fault_at(current: CatalogSpec, servers: Seq<UpdateSpec>, i: int) -> Option<
    UpdateError,
> {
    let s = merged(current, servers[i]);
    if s.id.len() == 0 {
        Some(UpdateError::MissingId)
    } else if update_id_taken(servers, i, s.id) {
        Some(UpdateError::DuplicateId)
    } else if s.base_url.len() == 0 {
        Some(UpdateError::MissingBaseUrl)
    } else if !url_usable(s.base_url) {
        Some(UpdateError::InvalidBaseUrl)
    } else if s.kind == BackendType::Qbit && s.username.len() == 0 && s.password.len() == 0 {
        Some(UpdateError::MissingCredentials)
    } else {
        None
    }
}

/// The fault of the first definition among the first `n` that has one.
pub open spec fn first_update_fault(
    current: CatalogSpec,
    servers: Seq<UpdateSpec>,
    n: int,
) -> Option<UpdateError>
    decreases n,
{
    if n <= 0 {
        None
    } else {
        match first_update_fault(current, servers, n - 1) {
            Some(e) => Some(e),
            None => update_fault_at(current, servers, n - 1),
        }
    }
}

/// Whether one of the definitions has, once trimmed, the id `id`.
pub open spec fn names_definition(servers: Seq<UpdateSpec>, id: Seq<char>) -> bool {
    update_id_taken(servers, servers.len() as int, id)
}

/// What an update amounts to against the catalog `current`: the document
/// to persist, or the first thing wrong with the update.
pub open spec fn update_result(current: CatalogSpec, req: RequestSpec) -> Result<
    ConfigSpec,
    UpdateError,
> {
    let n = req.servers.len() as int;
    let servers = Seq::new(req.servers.len(), |i: int| merged(current, req.servers[i]));
    let wanted = trimmed(req.default_server_id);
    if first_update_fault(current, req.servers, n) is Some {
        Err(first_update_fault(current, req.servers, n)->0)
    } else if n == 0 {
        Err(UpdateError::EmptyServers)
    } else if wanted.len() == 0 {
        Ok(ConfigSpec { default_server_id: servers[0].id, servers })
    } else if names_definition(req.servers, wanted) {
        Ok(ConfigSpec { default_server_id: wanted, servers })
    } else {
        Err(UpdateError::UnknownDefault)
    }
}

/// A fault found among the first definitions stays the first fault however
/// many more are looked at.
pub proof fn lemma_update_fault_stable(
    current: CatalogSpec,
    servers: Seq<UpdateSpec>,
    m: int,
    n: int,
)
    requires
        0 <= m <= n,
        first_update_fault(current, servers, m) is Some,
    ensures
        first_update_fault(current, servers, n) == first_update_fault(current, servers, m),
    decreases n - m,
{
    if m < n {
        lemma_update_fault_stable(current, servers, m, n - 1);
    }
}

/// There is no first fault exactly when no definition has a fault.
pub proof fn lemma_update_fault_none(current: CatalogSpec, servers: Seq<UpdateSpec>, n: int)
    requires
        0 <= n,
    ensures
        first_update_fault(current, servers, n) is None <==> forall|i: int|
            0 <= i < n ==> #[trigger] update_fault_at(current, servers, i) is None,
    decreases n,
{
    if n > 0 {
        lemma_update_fault_none(current, servers, n - 1);
    }
}

/// The position in `servers` of the one with the id `id`.
fn position_of_server(servers: &Vec<ServerConfig>, id: &String) -> (r: Option<usize>)
    ensures
        match r {
            Some(k) => k < servers.len() && servers@[k as int].id@ == id@,
            None => forall|j: int| 0 <= j < servers.len() ==> servers@[j].id@ != id@,
        },
{
    let mut k: usize = 0;
    while k < servers.len()
        invariant
            k <= servers.len(),
            forall|j: int| 0 <= j < k ==> servers@[j].id@ != id@,
        decreases servers.len() - k,
    {
        if servers[k].id == *id {
            return Some(k);
        }
        k += 1;
    }
    None
}

/// Validates a configuration update against the live catalog and merges
/// the stored passwords into it. The first fault in document order is the
/// one reported; nothing is changed.
pub fn handle_config_update(current: &Catalog, req: &ConfigUpdateRequest) -> (r: Result<
    ConfigFile,
    UpdateError,
>)
    ensures
        match r {
            Ok(cfg) => update_result(current@, req@) == Ok::<ConfigSpec, UpdateError>(cfg@),
            Err(e) => update_result(current@, req@) == Err::<ConfigSpec, UpdateError>(e),
        },
{
    let ghost given = req@.servers;
    let ghost live = current@;
    let n: usize = req.servers.len();
    let mut servers: Vec<ServerConfig> = Vec::new();
    let mut i: usize = 0;
    while i < n
        invariant
            i <= n == req.servers.len(),
            given == req@.servers,
            live == current@,
            servers.len() == i,
            first_update_fault(live, given, i as int) is None,
            forall|k: int| 0 <= k < i ==> #[trigger] servers@[k]@ == merged(live, given[k]),
        decreases n - i,
    {
        let s = &req.servers[i];
        assert(s@ == given[i as int]);
        proof {
            lemma_update_fault_none(live, given, i as int);
        }
        let id = trim(s.id.as_str());
        if id.as_str().is_empty() {
            proof {
                lemma_update_fault_stable(live, given, i + 1, n as int);
            }
            return Err(UpdateError::MissingId);
        }
        let taken = position_of_server(&servers, &id);
        if taken.is_some() {
            proof {
                let j = taken->0 as int;
                assert(servers@[j]@ == merged(live, given[j]));
                assert(trimmed(given[j].id) == id@);
                lemma_update_fault_stable(live, given, i + 1, n as int);
            }
            return Err(UpdateError::DuplicateId);
        }
        proof {
            assert forall|j: int| 0 <= j < i implies #[trigger] trimmed(given[j].id) != id@ by {
                assert(servers@[j]@ == merged(live, given[j]));
            }
        }
        let mut name = trim(s.name.as_str());
        if name.as_str().is_empty() {
            name = id.clone();
        }
        let base_url = trim(s.base_url.as_str());
        if base_url.as_str().is_empty() {
            proof {
                lemma_update_fault_stable(live, given, i + 1, n as int);
            }
            return Err(UpdateError::MissingBaseUrl);
        }
        let usable = match parse_url(base_url.as_str()) {
            Some(base) => !base.scheme.as_str().is_empty() && base.host.is_some(),
            None => false,
        };
        if !usable {
            proof {
                lemma_update_fault_stable(live, given, i + 1, n as int);
            }
            return Err(UpdateError::InvalidBaseUrl);
        }
        let username = trim(s.username.as_str());
        let password = match &s.password {
            Some(p) => trim(p.as_str()),
            None => match current.find(id.as_str()) {
                Some(e) => e.cfg.password.clone(),
                None => String::new(),
            },
        };
        let needs_login = match s.kind {
            BackendType::Qbit => true,
            BackendType::Trans => false,
        };
        if needs_login && username.as_str().is_empty() && password.as_str().is_empty() {
            proof {
                lemma_update_fault_stable(live, given, i + 1, n as int);
            }
            return Err(UpdateError::MissingCredentials);
        }
        let server = ServerConfig { id, name, kind: s.kind, base_url, username, password };
        assert(server@ == merged(live, given[i as int]));
        assert(update_fault_at(live, given, i as int) is None);
        servers.push(server);
        i += 1;
    }
    let ghost wanted_servers = Seq::new(given.len(), |k: int| merged(live, given[k]));
    assert(server_views(servers@) =~= wanted_servers);
    if servers.len() == 0 {
        return Err(UpdateError::EmptyServers);
    }
    let wanted = trim(req.default_server_id.as_str());
    if wanted.as_str().is_empty() {
        let default_server_id = servers[0].id.clone();
        return Ok(ConfigFile { default_server_id, servers });
    }
    match position_of_server(&servers, &wanted) {
        Some(k) => {
            assert(servers@[k as int]@ == merged(live, given[k as int]));
            assert(trimmed(given[k as int].id) == wanted@);
            Ok(ConfigFile { default_server_id: wanted, servers })
        },
        None => {
            assert forall|j: int| 0 <= j < given.len() implies #[trigger] trimmed(given[j].id)
                != wanted@ by {
                assert(servers@[j]@ == merged(live, given[j]));
            }
            Err(UpdateError::UnknownDefault)
        },
    }
}

/// The reason that goes out with a refused update.
pub open spec fn update_message(e: UpdateError) -> Seq<char> {
    match e {
        UpdateError::MissingId => "server.id is required"@,
        UpdateError::DuplicateId => "duplicate server id"@,
        UpdateError::MissingBaseUrl => "server.baseUrl is required"@,
        UpdateError::InvalidBaseUrl => "server.baseUrl is invalid"@,
        UpdateError::MissingCredentials => "qBittorrent server requires username/password"@,
        UpdateError::EmptyServers => "servers is empty"@,
        UpdateError::UnknownDefault => "defaultServerId not found in servers"@,
    }
}

impl UpdateError {
    /// The reason that goes out with the refusal.
    pub fn message(&self) -> (m: &'static str)
        ensures
            m@ == update_message(*self),
    {
        match self {
            UpdateError::MissingId => "server.id is required",
            UpdateError::DuplicateId => "duplicate server id",
            UpdateError::MissingBaseUrl => "server.baseUrl is required",
            UpdateError::InvalidBaseUrl => "server.baseUrl is invalid",
            UpdateError::MissingCredentials => "qBittorrent server requires username/password",
            UpdateError::EmptyServers => "servers is empty",
            UpdateError::UnknownDefault => "defaultServerId not found in servers",
        }
    }

    /// The status of the refusal: always 400.
    pub fn status(&self) -> (s: u16)
        ensures
            s == BAD_REQUEST,
    {
        BAD_REQUEST
    }
}

/// Puts a catalog that is already validated in the place of the live one
/// and discards every session cell. This is all that has to happen while
/// the live catalog is held for writing.
pub fn install_catalog(live: &mut Catalog, sessions: &mut QbitSessions, next: Catalog)
    ensures
        final(live)@ == next@,
        final(sessions)@ == old(sessions)@.cleared(),
{
    *live = next;
    sessions.clear();
}

/// Replaces the live catalog by the one that the reloaded document `doc`
/// defines, and discards every session cell. A document that does not
/// load leaves catalog and sessions as they are.
pub fn swap_catalog(
    live: &mut Catalog,
    sessions: &mut QbitSessions,
    doc: &ConfigFile,
) -> (r: Result<(), ConfigError>)
    ensures
        match load_result(doc@) {
            Ok(next) => {
                &&& r is Ok
                &&& final(live)@ == next
                &&& final(sessions)@ == old(sessions)@.cleared()
            },
            Err(e) => {
                &&& r == Err::<(), ConfigError>(e)
                &&& final(live)@ == old(live)@
                &&& final(sessions)@ == old(sessions)@
            },
        },
{
    match Catalog::load(doc) {
        Ok(next) => {
            install_catalog(live, sessions, next);
            Ok(())
        },
        Err(e) => Err(e),
    }
}

/// One backend as the configuration view shows it: without its password.
pub struct ConfigServerPublic {
    pub id: String,
    pub name: String,
    pub kind: BackendType,
    pub base_url: String,
    pub username: String,
    pub has_password: bool,
}

/// The mathematical content of a `ConfigServerPublic`.
pub struct PublicSpec {
    pub id: Seq<char>,
    pub name: Seq<char>,
    pub kind: BackendType,
    pub base_url: Seq<char>,
    pub username: Seq<char>,
    pub has_password: bool,
}

impl View for ConfigServerPublic {
    type V = PublicSpec;

    open spec fn view(&self) -> PublicSpec {
        PublicSpec {
            id: self.id@,
            name: self.name@,
            kind: self.kind,
            base_url: self.base_url@,
            username: self.username@,
            has_password: self.has_password,
        }
    }
}

/// The configuration as it leaves the gateway.
pub struct ConfigResponse {
    pub schema: u32,
    pub default_server_id: String,
    pub servers: Vec<ConfigServerPublic>,
}

/// What the configuration view shows of a definition: everything but the
/// password, of which it only says whether there is one.
pub open spec fn public_of(s: ServerSpec) -> PublicSpec {
    PublicSpec {
        id: s.id,
        name: s.name,
        kind: s.kind,
        base_url: s.base_url,
        username: s.username,
        has_password: s.password.len() > 0,
    }
}

/// The configuration view of the catalog: its entries in document order,
/// without secrets.
pub fn handle_config_get(catalog: &Catalog) -> (r: ConfigResponse)
    ensures
        r.schema == 1,
        r.default_server_id@ == catalog@.default_id,
        r.servers.len() == catalog@.entries.len(),
        forall|i: int|
            0 <= i < r.servers.len() ==> (#[trigger] r.servers@[i])@ == public_of(
                catalog@.entries[i].cfg,
            ),
{
    let mut servers: Vec<ConfigServerPublic> = Vec::new();
    let n = catalog.len();
    let mut i: usize = 0;
    while i < n
        invariant
            i <= n == catalog@.entries.len(),
            servers.len() == i,
            forall|k: int|
                0 <= k < i ==> (#[trigger] servers@[k])@ == public_of(catalog@.entries[k].cfg),
        decreases n - i,
    {
        let entry = catalog.entry_at(i);
        servers.push(
            ConfigServerPublic {
                id: entry.cfg.id.clone(),
                name: entry.cfg.name.clone(),
                kind: entry.cfg.kind,
                base_url: entry.cfg.base_url.clone(),
                username: entry.cfg.username.clone(),
                has_password: !entry.cfg.password.as_str().is_empty(),
            },
        );
        i += 1;
    }
    ConfigResponse { schema: 1, default_server_id: catalog.default_id().clone(), servers }
}

/// Why a selection is refused.
#[derive(Clone, Copy, Debug, PartialEq, Eq, Structural)]
pub enum SelectError {
    /// The id is empty.
    MissingId,
    /// The id names no backend.
    UnknownId,
}

/// The reason that goes out with a refused selection.
pub open spec fn select_message(e: SelectError) -> Seq<char> {
    match e {
        SelectError::MissingId => "id is required"@,
        SelectError::UnknownId => "unknown server id"@,
    }
}

impl SelectError {
    /// The reason that goes out with the refusal.
    pub fn message(&self) -> (m: &'static str)
        ensures
            m@ == select_message(*self),
    {
        match self {
            SelectError::MissingId => "id is required",
            SelectError::UnknownId => "unknown server id",
        }
    }

    /// The status of the refusal: always 400.
    pub fn status(&self) -> (s: u16)
        ensures
            s == BAD_REQUEST,
    {
        BAD_REQUEST
    }
}

/// The name of the cookie that carries the selection.
pub open spec fn selection_cookie_name() -> Seq<char> {
    "tm_server_id"@
}

/// The cookie that selects the backend `id`.
pub open spec fn selection_cookie(id: Seq<char>) -> Seq<char> {
    selection_cookie_name() + seq!['='] + id
        + "; Path=/; HttpOnly; SameSite=Lax; Max-Age=31536000"@
}

/// An accepted selection: the id, and the headers of the answer.
pub struct Selection {
    /// The selected id, trimmed.
    pub id: String,
    /// The cookie that carries the selection.
    pub cookie: String,
    /// The headers that go out with the answer: the cookie, where it may
    /// stand in a header.
    pub headers: HeaderMap,
}

/// Decides a selection request: the trimmed id must name a backend. The
/// answer to an accepted one sets the selection cookie as its only header,
/// unless the id holds what no header may hold, in which case the answer
/// has no header.
pub fn handle_select(catalog: &Catalog, id: &str) -> (r: Result<Selection, SelectError>)
    ensures
        match r {
            Ok(sel) => {
                &&& sel.id@ == trimmed(id@)
                &&& sel.id@.len() > 0
                &&& catalog@.has_id(sel.id@)
                &&& sel.cookie@ == selection_cookie(sel.id@)
                &&& header_fields(sel.headers) == (if is_value(utf8(sel.cookie@)) {
                    with_value(no_fields(), "set-cookie"@, utf8(sel.cookie@))
                } else {
                    no_fields()
                })
            },
            Err(SelectError::MissingId) => trimmed(id@).len() == 0,
            Err(SelectError::UnknownId) => trimmed(id@).len() > 0 && !catalog@.has_id(trimmed(id@)),
        },
{
    let wanted = trim(id);
    if wanted.as_str().is_empty() {
        return Err(SelectError::MissingId);
    }
    if !catalog.contains(wanted.as_str()) {
        return Err(SelectError::UnknownId);
    }
    let mut text = chars_of("tm_server_id");
    text.push('=');
    push_chars(&mut text, &chars_of(wanted.as_str()));
    push_chars(&mut text, &chars_of("; Path=/; HttpOnly; SameSite=Lax; Max-Age=31536000"));
    assert(text@ =~= selection_cookie(wanted@));
    let cookie = string_of(&text);
    let mut headers = empty_headers();
    proof {
        lemma_set_cookie_name();
        assert(no_fields().dom() =~= Set::<Seq<char>>::empty());
        assert(has_room(header_fields(headers)));
    }
    let fault = set_header(&mut headers, "set-cookie", cookie.as_str());
    assert(fault is None <==> is_value(utf8(cookie@))) by {
        match fault {
            Some(HeaderFault::Name) => {},
            Some(HeaderFault::Value) => {},
            Some(HeaderFault::Full) => {},
            None => {},
        }
    }
    Ok(Selection { id: wanted, cookie, headers })
}

/// An update that leaves the password of an existing backend out keeps
/// the stored password; one that gives a password, an empty one too, sets
/// it.
pub proof fn law_password_merge(current: CatalogSpec, req: RequestSpec, i: int)
    requires
        0 <= i < req.servers.len(),
        update_result(current, req) is Ok,
    ensures
        ({
            let given = req.servers[i];
            let kept = update_result(current, req)->Ok_0.servers[i];
            &&& given.password is None && current.has_id(trimmed(given.id)) ==> kept.password
                == current.entry(trimmed(given.id)).cfg.password
            &&& given.password is None && !current.has_id(trimmed(given.id)) ==> kept.password.len()
                == 0
            &&& given.password matches Some(p) ==> kept.password == trimmed(p)
        }),
{
}

/// An update in which a backend that logs in with a form ends up with
/// neither a user name nor a password is refused.
pub proof fn law_login_needs_credentials(current: CatalogSpec, req: RequestSpec, i: int)
    requires
        0 <= i < req.servers.len(),
        merged(current, req.servers[i]).kind == BackendType::Qbit,
        merged(current, req.servers[i]).username.len() == 0,
        merged(current, req.servers[i]).password.len() == 0,
    ensures
        update_result(current, req) is Err,
{
    let n = req.servers.len() as int;
    lemma_update_fault_none(current, req.servers, n);
    assert(update_fault_at(current, req.servers, i) is Some);
}

/// The document that an accepted update gives loads: the reload that
/// follows a successful update does not fail on validation.
pub proof fn law_accepted_update_loads(current: CatalogSpec, req: RequestSpec)
    requires
        update_result(current, req) is Ok,
    ensures
        load_result(update_result(current, req)->Ok_0) is Ok,
        load_result(update_result(current, req)->Ok_0)->Ok_0.default_id == update_result(
            current,
            req,
        )->Ok_0.default_server_id,
{
    let cfg = update_result(current, req)->Ok_0;
    let n = req.servers.len() as int;
    lemma_update_fault_none(current, req.servers, n);
    assert forall|i: int| 0 <= i < n implies #[trigger] fault_at(cfg.servers, i)
        is None by {
        assert(update_fault_at(current, req.servers, i) is None);
        let s = req.servers[i];
        lemma_trimmed_is_trim(s.id);
        lemma_trimmed_is_trim(s.base_url);
        if id_taken(cfg.servers, i, trimmed(cfg.servers[i].id)) {
            let j = choose|j: int|
                0 <= j < i && #[trigger] trimmed(cfg.servers[j].id) == trimmed(cfg.servers[i].id);
            lemma_trimmed_is_trim(req.servers[j].id);
            assert(trimmed(req.servers[j].id) == trimmed(s.id));
        }
    }
    lemma_first_fault_none(cfg.servers, n);
    lemma_trimmed_is_trim(req.default_server_id);
    lemma_trimmed_is_trim(req.servers[0].id);
    let wanted = trimmed(cfg.default_server_id);
    let entries = Seq::new(cfg.servers.len(), |i: int| entry_of(cfg.servers[i]));
    if trimmed(req.default_server_id).len() > 0 {
        let k = choose|j: int|
            0 <= j < n && #[trigger] trimmed(req.servers[j].id) == trimmed(req.default_server_id);
        lemma_trimmed_is_trim(req.servers[k].id);
        assert(entries[k].cfg.id == wanted);
    } else {
        assert(entries[0].cfg.id == wanted);
    }
}

} // verus!
