//! The backend catalog: the validated, immutable set of configured
//! backends with its default selection.

use vstd::prelude::*;
use crate::address::{BaseUrl, UrlParts, url_parse, parse_url, origin_of, format_origin, opt_str};
use crate::text::{chars_of, string_of, trim, trimmed};

verus! {

/// The supported backend families.
#[derive(Clone, Copy, Debug, PartialEq, Eq, Structural)]
pub enum BackendType {
    /// Logs in with a form and carries a session cookie.
    Qbit,
    /// Takes HTTP Basic credentials with every request.
    Trans,
}

/// One backend as the configuration document defines it.
pub struct ServerConfig {
    pub id: String,
    pub name: String,
    pub kind: BackendType,
    pub base_url: String,
    pub username: String,
    pub password: String,
}

/// The mathematical content of a `ServerConfig`.
pub struct ServerSpec {
    pub id: Seq<char>,
    pub name: Seq<char>,
    pub kind: BackendType,
    pub base_url: Seq<char>,
    pub username: Seq<char>,
    pub password: Seq<char>,
}

impl View for ServerConfig {
    type V = ServerSpec;

    open spec fn view(&self) -> ServerSpec {
        ServerSpec {
            id: self.id@,
            name: self.name@,
            kind: self.kind,
            base_url: self.base_url@,
            username: self.username@,
            password: self.password@,
        }
    }
}

impl Clone for ServerConfig {
    fn clone(&self) -> (r: Self)
        ensures
            r@ == self@,
    {
        ServerConfig {
            id: self.id.clone(),
            name: self.name.clone(),
            kind: self.kind,
            base_url: self.base_url.clone(),
            username: self.username.clone(),
            password: self.password.clone(),
        }
    }
}

/// The configuration document.
pub struct ConfigFile {
    pub default_server_id: String,
    pub servers: Vec<ServerConfig>,
}

/// The mathematical content of a `ConfigFile`.
pub struct ConfigSpec {
    pub default_server_id: Seq<char>,
    pub servers: Seq<ServerSpec>,
}

/// The contents of a list of definitions.
pub open spec fn server_views(servers: Seq<ServerConfig>) -> Seq<ServerSpec> {
    Seq::new(servers.len(), |i: int| servers[i]@)
}

impl View for ConfigFile {
    type V = ConfigSpec;

    open spec fn view(&self) -> ConfigSpec {
        ConfigSpec {
            default_server_id: self.default_server_id@,
            servers: server_views(self.servers@),
        }
    }
}

/// A validated backend with its parsed base URL and derived origin.
pub struct ServerEntry {
    pub cfg: ServerConfig,
    pub base: BaseUrl,
    pub origin: String,
}

/// The mathematical content of a `ServerEntry`.
pub struct EntrySpec {
    pub cfg: ServerSpec,
    pub base: UrlParts,
    pub origin: Seq<char>,
}

impl View for ServerEntry {
    type V = EntrySpec;

    open spec fn view(&self) -> EntrySpec {
        EntrySpec { cfg: self.cfg@, base: self.base@, origin: self.origin@ }
    }
}

impl Clone for ServerEntry {
    fn clone(&self) -> (r: Self)
        ensures
            r@ == self@,
    {
        ServerEntry { cfg: self.cfg.clone(), base: self.base.clone(), origin: self.origin.clone() }
    }
}

/// Why a configuration is refused. `index` is the position of the
/// offending definition in the document.
#[derive(Clone, Copy, Debug, PartialEq, Eq, Structural)]
pub enum ConfigError {
    /// The document defines no backend.
    EmptyServers,
    /// A definition has an empty id.
    MissingId { index: usize },
    /// A definition has an empty base URL.
    MissingBaseUrl { index: usize },
    /// A definition repeats the id of an earlier one.
    DuplicateId { index: usize },
    /// A base URL does not parse, or lacks a scheme or a host.
    InvalidBaseUrl { index: usize },
    /// The default id names no definition.
    UnknownDefault,
}

/// A definition with every text trimmed and an empty name replaced by the
/// id.
pub open spec fn normalized(s: ServerSpec) -> ServerSpec {
    let id = trimmed(s.id);
    let name = trimmed(s.name);
    ServerSpec {
        id,
        name: if name.len() == 0 { id } else { name },
        kind: s.kind,
        base_url: trimmed(s.base_url),
        username: trimmed(s.username),
        password: trimmed(s.password),
    }
}

/// Whether `text` parses as a URL with a scheme and a host.
pub open spec fn url_usable(text: Seq<char>) -> bool {
    match url_parse(text) {
        Some(u) => u.scheme.len() > 0 && u.host is Some,
        None => false,
    }
}

/// Whether one of the definitions before position `i` has, once trimmed,
/// the id `id`.
pub open spec fn id_taken(servers: Seq<ServerSpec>, i: int, id: Seq<char>) -> bool {
    exists|j: int| 0 <= j < i && #[trigger] trimmed(servers[j].id) == id
}

/// What is wrong with the definition at position `i`, given those before
/// it; nothing where it is in order.
pub open spec fn fault_at(servers: Seq<ServerSpec>, i: int) -> Option<ConfigError> {
    let s = normalized(servers[i]);
    if s.id.len() == 0 {
        Some(ConfigError::MissingId { index: i as usize })
    } else if s.base_url.len() == 0 {
        Some(ConfigError::MissingBaseUrl { index: i as usize })
    } else if id_taken(servers, i, s.id) {
        Some(ConfigError::DuplicateId { index: i as usize })
    } else if !url_usable(s.base_url) {
        Some(ConfigError::InvalidBaseUrl { index: i as usize })
    } else {
        None
    }
}

/// The fault of the first definition among the first `n` that has one.
pub open spec fn first_fault(servers: Seq<ServerSpec>, n: int) -> Option<ConfigError>
    decreases n,
{
    if n <= 0 {
        None
    } else {
        match first_fault(servers, n - 1) {
            Some(e) => Some(e),
            None => fault_at(servers, n - 1),
        }
    }
}

/// The catalog entry of a definition whose base URL is usable.
pub open spec fn entry_of(s: ServerSpec) -> EntrySpec {
    let cfg = normalized(s);
    let base = url_parse(cfg.base_url)->0;
    EntrySpec { cfg, base, origin: origin_of(base.scheme, base.host->0, base.port) }
}

/// The mathematical content of a `Catalog`: the default id and the entries
/// in document order.
pub struct CatalogSpec {
    pub default_id: Seq<char>,
    pub entries: Seq<EntrySpec>,
}

impl CatalogSpec {
    /// Whether an entry has the id `id`.
    pub open spec fn has_id(self, id: Seq<char>) -> bool {
        exists|i: int| 0 <= i < self.entries.len() && #[trigger] self.entries[i].cfg.id == id
    }

    /// The position of the entry with the id `id`.
    pub open spec fn index_of(self, id: Seq<char>) -> int {
        choose|i: int| 0 <= i < self.entries.len() && #[trigger] self.entries[i].cfg.id == id
    }

    /// The entry with the id `id`.
    pub open spec fn entry(self, id: Seq<char>) -> EntrySpec {
        self.entries[self.index_of(id)]
    }

    /// No two entries share an id.
    pub open spec fn distinct_ids(self) -> bool {
        forall|i: int, j: int|
            0 <= i < j < self.entries.len() ==> #[trigger] self.entries[i].cfg.id
                != #[trigger] self.entries[j].cfg.id
    }

    /// The invariant of a catalog: it is not empty, no id is empty or
    /// occurs twice, and the default id names an entry.
    pub open spec fn wf(self) -> bool {
        &&& self.entries.len() > 0
        &&& self.distinct_ids()
        &&& forall|i: int|
            0 <= i < self.entries.len() ==> #[trigger] self.entries[i].cfg.id.len() > 0
        &&& self.has_id(self.default_id)
    }

    /// The id that a selection signal stands for: the trimmed signal where
    /// it names an entry, else the default.
    pub open spec fn resolve(self, signal: Option<Seq<char>>) -> Seq<char> {
        match signal {
            Some(s) => if trimmed(s).len() > 0 && self.has_id(trimmed(s)) {
                trimmed(s)
            } else {
                self.default_id
            },
            None => self.default_id,
        }
    }
}

/// What loading `cfg` gives: the catalog, or the first thing wrong with
/// the document.
pub open spec fn load_result(cfg: ConfigSpec) -> Result<CatalogSpec, ConfigError> {
    let n = cfg.servers.len() as int;
    let entries = Seq::new(cfg.servers.len(), |i: int| entry_of(cfg.servers[i]));
    let wanted = trimmed(cfg.default_server_id);
    if n == 0 {
        Err(ConfigError::EmptyServers)
    } else if first_fault(cfg.servers, n) is Some {
        Err(first_fault(cfg.servers, n)->0)
    } else if wanted.len() == 0 {
        Ok(CatalogSpec { default_id: entries[0].cfg.id, entries })
    } else if (CatalogSpec { default_id: wanted, entries }).has_id(wanted) {
        Ok(CatalogSpec { default_id: wanted, entries })
    } else {
        Err(ConfigError::UnknownDefault)
    }
}

/// A fault found among the first definitions stays the first fault however
/// many more are looked at.
pub proof fn lemma_first_fault_stable(servers: Seq<ServerSpec>, m: int, n: int)
    requires
        0 <= m <= n,
        first_fault(servers, m) is Some,
    ensures
        first_fault(servers, n) == first_fault(servers, m),
    decreases n - m,
{
    if m < n {
        lemma_first_fault_stable(servers, m, n - 1);
    }
}

/// There is no first fault exactly when no definition has a fault.
pub proof fn lemma_first_fault_none(servers: Seq<ServerSpec>, n: int)
    requires
        0 <= n,
    ensures
        first_fault(servers, n) is None <==> forall|i: int|
            0 <= i < n ==> #[trigger] fault_at(servers, i) is None,
    decreases n,
{
    if n > 0 {
        lemma_first_fault_none(servers, n - 1);
    }
}

/// The contents of a list of entries.
pub open spec fn entry_views(entries: Seq<ServerEntry>) -> Seq<EntrySpec> {
    Seq::new(entries.len(), |i: int| entries[i]@)
}

/// The validated set of backends with its default selection.
pub struct Catalog {
    default_id: String,
    entries: Vec<ServerEntry>,
}

impl View for Catalog {
    type V = CatalogSpec;

    closed spec fn view(&self) -> CatalogSpec {
        CatalogSpec { default_id: self.default_id@, entries: entry_views(self.entries@) }
    }
}

/// The position in `entries` of the one with the id `id`.
fn position_of_id(entries: &Vec<ServerEntry>, id: &String) -> (r: Option<usize>)
    ensures
        match r {
            Some(k) => k < entries.len() && entries@[k as int].cfg.id@ == id@,
            None => forall|j: int| 0 <= j < entries.len() ==> entries@[j].cfg.id@ != id@,
        },
{
    let mut k: usize = 0;
    while k < entries.len()
        invariant
            k <= entries.len(),
            forall|j: int| 0 <= j < k ==> entries@[j].cfg.id@ != id@,
        decreases entries.len() - k,
    {
        if entries[k].cfg.id == *id {
            return Some(k);
        }
        k += 1;
    }
    None
}

impl Clone for Catalog {
    /// A snapshot of the catalog.
    fn clone(&self) -> (r: Self)
        ensures
            r@ == self@,
    {
        proof {
            use_type_invariant(self);
        }
        let mut entries: Vec<ServerEntry> = Vec::new();
        let mut i: usize = 0;
        while i < self.entries.len()
            invariant
                i <= self.entries.len(),
                entries.len() == i,
                forall|k: int| 0 <= k < i ==> #[trigger] entries@[k]@ == self.entries@[k]@,
            decreases self.entries.len() - i,
        {
            entries.push(self.entries[i].clone());
            i += 1;
        }
        assert(entry_views(entries@) =~= entry_views(self.entries@));
        Catalog { default_id: self.default_id.clone(), entries }
    }
}

impl Catalog {
    #[verifier::type_invariant]
    closed spec fn inv(self) -> bool {
        self@.wf()
    }

    /// Validates a configuration document and builds the catalog from it.
    /// Every text is trimmed and an empty name becomes the id. The first
    /// fault in document order is the one reported.
    pub fn load(cfg: &ConfigFile) -> (r: Result<Catalog, ConfigError>)
        ensures
            match r {
                Ok(c) => load_result(cfg@) == Ok::<CatalogSpec, ConfigError>(c@) && c@.wf(),
                Err(e) => load_result(cfg@) == Err::<CatalogSpec, ConfigError>(e),
            },
    {
        let ghost servers = cfg@.servers;
        let n: usize = cfg.servers.len();
        if n == 0 {
            return Err(ConfigError::EmptyServers);
        }
        let mut entries: Vec<ServerEntry> = Vec::new();
        let mut i: usize = 0;
        while i < n
            invariant
                i <= n == cfg.servers.len(),
                servers == cfg@.servers,
                entries.len() == i,
                first_fault(servers, i as int) is None,
                forall|k: int| 0 <= k < i ==> #[trigger] entries@[k]@ == entry_of(servers[k]),
            decreases n - i,
        {
            let s = &cfg.servers[i];
            assert(s@ == servers[i as int]);
            let id = trim(s.id.as_str());
            let mut name = trim(s.name.as_str());
            let base_url = trim(s.base_url.as_str());
            let username = trim(s.username.as_str());
            let password = trim(s.password.as_str());
            proof {
                lemma_first_fault_none(servers, i as int);
            }
            if id.as_str().is_empty() {
                proof {
                    lemma_first_fault_stable(servers, i + 1, n as int);
                }
                return Err(ConfigError::MissingId { index: i });
            }
            if name.as_str().is_empty() {
                name = id.clone();
            }
            if base_url.as_str().is_empty() {
                proof {
                    lemma_first_fault_stable(servers, i + 1, n as int);
                }
                return Err(ConfigError::MissingBaseUrl { index: i });
            }
            let taken = position_of_id(&entries, &id);
            if taken.is_some() {
                proof {
                    let j = taken->0 as int;
                    assert(entries@[j]@ == entry_of(servers[j]));
                    assert(trimmed(servers[j].id) == id@);
                    lemma_first_fault_stable(servers, i + 1, n as int);
                }
                return Err(ConfigError::DuplicateId { index: i });
            }
            proof {
                assert forall|j: int| 0 <= j < i implies #[trigger] trimmed(servers[j].id)
                    != id@ by {
                    assert(entries@[j]@ == entry_of(servers[j]));
                }
            }
            let base = match parse_url(base_url.as_str()) {
                Some(u) => u,
                None => {
                    proof {
                        lemma_first_fault_stable(servers, i + 1, n as int);
                    }
                    return Err(ConfigError::InvalidBaseUrl { index: i });
                },
            };
            if base.scheme.as_str().is_empty() {
                proof {
                    lemma_first_fault_stable(servers, i + 1, n as int);
                }
                return Err(ConfigError::InvalidBaseUrl { index: i });
            }
            let origin = match &base.host {
                Some(host) => format_origin(base.scheme.as_str(), host.as_str(), base.port),
                None => {
                    proof {
                        lemma_first_fault_stable(servers, i + 1, n as int);
                    }
                    return Err(ConfigError::InvalidBaseUrl { index: i });
                },
            };
            let entry = ServerEntry {
                cfg: ServerConfig { id, name, kind: s.kind, base_url, username, password },
                base,
                origin,
            };
            assert(entry@ == entry_of(servers[i as int]));
            assert(fault_at(servers, i as int) is None);
            entries.push(entry);
            i += 1;
        }
        let ghost views = Seq::new(servers.len(), |k: int| entry_of(servers[k]));
        assert(entry_views(entries@) =~= views);
        proof {
            lemma_first_fault_none(servers, n as int);
            lemma_entries_wf(servers);
        }
        let wanted = trim(cfg.default_server_id.as_str());
        if wanted.as_str().is_empty() {
            let default_id = entries[0].cfg.id.clone();
            assert(entry_views(entries@)[0].cfg.id == default_id@);
            return Ok(Catalog { default_id, entries });
        }
        match position_of_id(&entries, &wanted) {
            Some(k) => {
                assert(entry_views(entries@)[k as int].cfg.id == wanted@);
                Ok(Catalog { default_id: wanted, entries })
            },
            None => {
                assert forall|j: int| 0 <= j < views.len() implies #[trigger] views[j].cfg.id
                    != wanted@ by {
                    assert(entries@[j]@ == views[j]);
                }
                Err(ConfigError::UnknownDefault)
            },
        }
    }

    /// The id that a selection signal stands for: the trimmed signal where
    /// it names an entry, else the default. Never fails.
    pub fn selected_id(&self, signal: Option<&str>) -> (r: String)
        ensures
            r@ == self@.resolve(opt_str(signal)),
            self@.has_id(r@),
    {
        proof {
            use_type_invariant(self);
        }
        match signal {
            Some(s) => {
                let id = trim(s);
                if !id.as_str().is_empty() {
                    match position_of_id(&self.entries, &id) {
                        Some(k) => {
                            assert(self@.entries[k as int].cfg.id == id@);
                            return id;
                        },
                        None => {
                            assert forall|j: int| 0 <= j < self@.entries.len() implies
                                #[trigger] self@.entries[j].cfg.id != id@ by {
                                assert(self.entries@[j].cfg.id@ != id@);
                            }
                        },
                    }
                }
                self.default_id.clone()
            },
            None => self.default_id.clone(),
        }
    }

    /// The entry that a selection signal stands for. By the catalog's
    /// invariant the lookup cannot miss.
    pub fn pick(&self, signal: Option<&str>) -> (r: &ServerEntry)
        ensures
            r@ == self@.entry(self@.resolve(opt_str(signal))),
            r@.cfg.id == self@.resolve(opt_str(signal)),
            self@.has_id(r@.cfg.id),
    {
        proof {
            use_type_invariant(self);
        }
        let id = self.selected_id(signal);
        let found = position_of_id(&self.entries, &id);
        proof {
            let w = choose|i: int|
                0 <= i < self@.entries.len() && #[trigger] self@.entries[i].cfg.id == id@;
            assert(self.entries@[w].cfg.id@ == id@);
            self@.lemma_entry_unique(id@, found->0 as int);
        }
        &self.entries[found.unwrap()]
    }

    /// Whether an entry has the id `id`, taken as it stands.
    pub fn contains(&self, id: &str) -> (b: bool)
        ensures
            b == self@.has_id(id@),
    {
        let owned = string_of(&chars_of(id));
        let found = position_of_id(&self.entries, &owned);
        proof {
            if found is Some {
                assert(self@.entries[found->0 as int].cfg.id == id@);
            } else {
                assert forall|j: int| 0 <= j < self@.entries.len() implies
                    #[trigger] self@.entries[j].cfg.id != id@ by {
                    assert(self.entries@[j].cfg.id@ != id@);
                }
            }
        }
        found.is_some()
    }

    /// The entry with the id `id`, taken as it stands, where there is
    /// one.
    pub fn find(&self, id: &str) -> (r: Option<&ServerEntry>)
        ensures
            match r {
                Some(e) => self@.has_id(id@) && e@ == self@.entry(id@) && e@.cfg.id == id@,
                None => !self@.has_id(id@),
            },
    {
        proof {
            use_type_invariant(self);
        }
        let owned = string_of(&chars_of(id));
        match position_of_id(&self.entries, &owned) {
            Some(k) => {
                proof {
                    assert(self@.entries[k as int].cfg.id == id@);
                    self@.lemma_entry_unique(id@, k as int);
                }
                Some(&self.entries[k])
            },
            None => {
                assert forall|j: int| 0 <= j < self@.entries.len() implies
                    #[trigger] self@.entries[j].cfg.id != id@ by {
                    assert(self.entries@[j].cfg.id@ != id@);
                }
                None
            },
        }
    }

    /// The default id.
    pub fn default_id(&self) -> (r: &String)
        ensures
            r@ == self@.default_id,
    {
        &self.default_id
    }

    /// The number of entries; never zero.
    pub fn len(&self) -> (n: usize)
        ensures
            n == self@.entries.len(),
            n > 0,
    {
        proof {
            use_type_invariant(self);
        }
        self.entries.len()
    }

    /// The entry at position `i` in document order.
    pub fn entry_at(&self, i: usize) -> (r: &ServerEntry)
        requires
            i < self@.entries.len(),
        ensures
            r@ == self@.entries[i as int],
    {
        &self.entries[i]
    }
}

impl CatalogSpec {
    /// In a catalog with distinct ids, the entry at a position is the
    /// entry of its id.
    pub proof fn lemma_entry_unique(self, id: Seq<char>, k: int)
        requires
            self.distinct_ids(),
            0 <= k < self.entries.len(),
            self.entries[k].cfg.id == id,
        ensures
            self.index_of(id) == k,
            self.entry(id) == self.entries[k],
    {
        let w = self.index_of(id);
        if w < k {
            assert(self.entries[w].cfg.id != self.entries[k].cfg.id);
        } else if k < w {
            assert(self.entries[k].cfg.id != self.entries[w].cfg.id);
        }
    }
}

/// The entries of a document without faults form a well-formed list: no
/// id is empty or occurs twice.
pub proof fn lemma_entries_wf(servers: Seq<ServerSpec>)
    requires
        servers.len() > 0,
        forall|i: int| 0 <= i < servers.len() ==> #[trigger] fault_at(servers, i) is None,
    ensures
        ({
            let entries = Seq::new(servers.len(), |k: int| entry_of(servers[k]));
            &&& forall|i: int| 0 <= i < entries.len() ==> #[trigger] entries[i].cfg.id.len() > 0
            &&& forall|i: int, j: int|
                0 <= i < j < entries.len() ==> #[trigger] entries[i].cfg.id
                    != #[trigger] entries[j].cfg.id
        }),
{
    let entries = Seq::new(servers.len(), |k: int| entry_of(servers[k]));
    assert forall|i: int| 0 <= i < entries.len() implies #[trigger] entries[i].cfg.id.len()
        > 0 by {
        assert(fault_at(servers, i) is None);
    }
    assert forall|i: int, j: int| 0 <= i < j < entries.len() implies #[trigger] entries[i].cfg.id
        != #[trigger] entries[j].cfg.id by {
        assert(fault_at(servers, j) is None);
        if entries[i].cfg.id == entries[j].cfg.id {
            assert(trimmed(servers[i].id) == trimmed(servers[j].id));
            assert(id_taken(servers, j, trimmed(servers[j].id)));
        }
    }
}

/// Whether `text` is not empty and parses as a URL with a scheme and a
/// host.
pub open spec fn base_url_ok(text: Seq<char>) -> bool {
    text.len() > 0 && url_usable(text)
}

/// Loading succeeds exactly when the document defines a backend, every id
/// is non-empty once trimmed, no trimmed id occurs twice, every trimmed
/// base URL is non-empty and parses with a scheme and a host, and the
/// trimmed default id is empty or names a definition.
pub proof fn law_load_succeeds_iff(cfg: ConfigSpec)
    ensures
        load_result(cfg) is Ok <==> {
            &&& cfg.servers.len() > 0
            &&& forall|i: int|
                0 <= i < cfg.servers.len() ==> (#[trigger] trimmed(cfg.servers[i].id)).len() > 0
            &&& forall|i: int, j: int|
                0 <= i < j < cfg.servers.len() ==> #[trigger] trimmed(cfg.servers[i].id)
                    != #[trigger] trimmed(cfg.servers[j].id)
            &&& forall|i: int|
                0 <= i < cfg.servers.len() ==> base_url_ok(
                    #[trigger] trimmed(cfg.servers[i].base_url),
                )
            &&& (trimmed(cfg.default_server_id).len() == 0 || exists|i: int|
                0 <= i < cfg.servers.len() && #[trigger] trimmed(cfg.servers[i].id) == trimmed(
                    cfg.default_server_id,
                ))
        },
{
    let servers = cfg.servers;
    let n = servers.len() as int;
    let wanted = trimmed(cfg.default_server_id);
    let entries = Seq::new(servers.len(), |i: int| entry_of(servers[i]));
    let cat = CatalogSpec { default_id: wanted, entries };
    lemma_first_fault_none(servers, n);
    let clean = forall|i: int| 0 <= i < n ==> #[trigger] fault_at(servers, i) is None;
    let shape = {
        &&& forall|i: int| 0 <= i < n ==> (#[trigger] trimmed(servers[i].id)).len() > 0
        &&& forall|i: int, j: int|
            0 <= i < j < n ==> #[trigger] trimmed(servers[i].id) != #[trigger] trimmed(
                servers[j].id,
            )
        &&& forall|i: int| 0 <= i < n ==> base_url_ok(#[trigger] trimmed(servers[i].base_url))
    };
    if clean {
        assert forall|i: int| 0 <= i < n implies (#[trigger] trimmed(servers[i].id)).len()
            > 0 by {
            assert(fault_at(servers, i) is None);
        }
        assert forall|i: int| 0 <= i < n implies base_url_ok(
            #[trigger] trimmed(servers[i].base_url),
        ) by {
            assert(fault_at(servers, i) is None);
        }
        assert forall|i: int, j: int| 0 <= i < j < n implies #[trigger] trimmed(servers[i].id)
            != #[trigger] trimmed(servers[j].id) by {
            assert(fault_at(servers, j) is None);
            if trimmed(servers[i].id) == trimmed(servers[j].id) {
                assert(id_taken(servers, j, trimmed(servers[j].id)));
            }
        }
        assert(shape);
    }
    if shape {
        assert forall|i: int| 0 <= i < n implies #[trigger] fault_at(servers, i) is None by {
            assert(trimmed(servers[i].id).len() > 0);
            assert(base_url_ok(trimmed(servers[i].base_url)));
            if id_taken(servers, i, trimmed(servers[i].id)) {
                let j = choose|j: int|
                    0 <= j < i && #[trigger] trimmed(servers[j].id) == trimmed(servers[i].id);
                assert(trimmed(servers[j].id) != trimmed(servers[i].id));
            }
        }
        assert(clean);
    }
    if cat.has_id(wanted) {
        let k = choose|i: int| 0 <= i < entries.len() && #[trigger] entries[i].cfg.id == wanted;
        assert(trimmed(servers[k].id) == wanted);
    }
    if exists|i: int| 0 <= i < n && #[trigger] trimmed(servers[i].id) == wanted {
        let k = choose|i: int| 0 <= i < n && #[trigger] trimmed(servers[i].id) == wanted;
        assert(entries[k].cfg.id == wanted);
    }
}

/// Whatever loads is a well-formed catalog that keeps the document's
/// order: one entry for each definition.
pub proof fn law_loaded_catalog_wf(cfg: ConfigSpec)
    requires
        load_result(cfg) is Ok,
    ensures
        load_result(cfg)->Ok_0.wf(),
        load_result(cfg)->Ok_0.entries.len() == cfg.servers.len(),
        forall|i: int|
            0 <= i < cfg.servers.len() ==> (#[trigger] load_result(cfg)->Ok_0.entries[i]).cfg
                == normalized(cfg.servers[i]),
{
    let servers = cfg.servers;
    lemma_first_fault_none(servers, servers.len() as int);
    lemma_entries_wf(servers);
    let c = load_result(cfg)->Ok_0;
    assert(c.entries[0].cfg.id == entry_of(servers[0]).cfg.id);
}

/// Whatever the selection signal, absent, empty or naming an id that is
/// no longer there, it resolves to the id of an entry of the catalog.
pub proof fn law_resolve_is_known(c: CatalogSpec, signal: Option<Seq<char>>)
    requires
        c.wf(),
    ensures
        c.has_id(c.resolve(signal)),
        c.entry(c.resolve(signal)).cfg.id == c.resolve(signal),
        0 <= c.index_of(c.resolve(signal)) < c.entries.len(),
{
}

} // verus!
