//! The health prober: where each backend is dialled, what a dial amounts
//! to, and the status report that merges the outcomes back with the
//! catalog in its own order.

use vstd::prelude::*;
use crate::address::{UrlParts, BaseUrl, format_host_port, host_port, opt_str, opt_text};
use crate::catalog::{BackendType, Catalog, EntrySpec};
use crate::text::{chars_of, string_of};

verus! {

/// The port that is dialled where a base URL gives none and its scheme
/// has no conventional one.
pub const FALLBACK_PORT: u16 = 80;

/// The time, in milliseconds, that one status check may take for all
/// backends together.
pub const PROBE_BUDGET_MS: u64 = 1200;

/// The address at which a backend is dialled: its host with its port, the
/// scheme's conventional port or 80; none where the URL has no host.
pub open spec fn dial_address(base: UrlParts) -> Option<Seq<char>> {
    match base.host {
        Some(h) => Some(
            host_port(
                h,
                match base.known_port {
                    Some(p) => p,
                    None => FALLBACK_PORT,
                },
            ),
        ),
        None => None,
    }
}

/// The address at which the backend at `base` is dialled.
pub fn dial_target(base: &BaseUrl) -> (r: Option<String>)
    ensures
        opt_text(r) == dial_address(base@),
{
    match &base.host {
        Some(h) => {
            let port = match base.known_port {
                Some(p) => p,
                None => FALLBACK_PORT,
            };
            Some(format_host_port(h.as_str(), port))
        },
        None => None,
    }
}

/// The outcome of dialling one backend.
pub struct ProbeResult {
    /// The id of the backend.
    pub id: String,
    /// The time to connection establishment, in milliseconds, where the
    /// dial succeeded.
    pub latency_ms: Option<u64>,
    /// Whether the dial succeeded before the deadline.
    pub reachable: bool,
}

/// The mathematical content of a `ProbeResult`.
pub struct ProbeSpec {
    pub id: Seq<char>,
    pub latency_ms: Option<u64>,
    pub reachable: bool,
}

impl View for ProbeResult {
    type V = ProbeSpec;

    open spec fn view(&self) -> ProbeSpec {
        ProbeSpec { id: self.id@, latency_ms: self.latency_ms, reachable: self.reachable }
    }
}

/// What a dial amounts to: a connection that was established in
/// `elapsed_ms` makes the backend reachable with that latency; a failed
/// dial, an expired deadline or a URL without host makes it unreachable,
/// without latency.
pub fn measure_tcp_dial_latency(id: &str, address: Option<&str>, elapsed_ms: Option<u64>) -> (r:
    ProbeResult)
    ensures
        r.id@ == id@,
        r.reachable == (address is Some && elapsed_ms is Some),
        r.latency_ms == (if address is Some {
            elapsed_ms
        } else {
            None
        }),
{
    let id = string_of(&chars_of(id));
    match (address, elapsed_ms) {
        (Some(_), Some(ms)) => ProbeResult { id, latency_ms: Some(ms), reachable: true },
        _ => ProbeResult { id, latency_ms: None, reachable: false },
    }
}

/// One backend as the status report shows it.
pub struct ServerPublic {
    pub id: String,
    pub name: String,
    pub kind: BackendType,
    pub base_url: String,
    pub latency_ms: Option<u64>,
    pub reachable: bool,
}

/// The mathematical content of a `ServerPublic`.
pub struct ServerStatus {
    pub id: Seq<char>,
    pub name: Seq<char>,
    pub kind: BackendType,
    pub base_url: Seq<char>,
    pub latency_ms: Option<u64>,
    pub reachable: bool,
}

impl View for ServerPublic {
    type V = ServerStatus;

    open spec fn view(&self) -> ServerStatus {
        ServerStatus {
            id: self.id@,
            name: self.name@,
            kind: self.kind,
            base_url: self.base_url@,
            latency_ms: self.latency_ms,
            reachable: self.reachable,
        }
    }
}

/// The status report.
pub struct StatusResponse {
    pub schema: u32,
    pub selected_id: String,
    pub servers: Vec<ServerPublic>,
}

/// The contents of a list of outcomes.
pub open spec fn probe_views(results: Seq<ProbeResult>) -> Seq<ProbeSpec> {
    Seq::new(results.len(), |i: int| results[i]@)
}

/// The outcome that counts for the backend `id`: the last one reported
/// for it; unreachable and without latency where none was reported.
pub open spec fn outcome_of(results: Seq<ProbeSpec>, id: Seq<char>) -> (Option<u64>, bool)
    decreases results.len(),
{
    if results.len() == 0 {
        (None, false)
    } else if results.last().id == id {
        (results.last().latency_ms, results.last().reachable)
    } else {
        outcome_of(results.drop_last(), id)
    }
}

/// What the status report shows of an entry.
pub open spec fn status_of(entry: EntrySpec, results: Seq<ProbeSpec>) -> ServerStatus {
    ServerStatus {
        id: entry.cfg.id,
        name: entry.cfg.name,
        kind: entry.cfg.kind,
        base_url: entry.cfg.base_url,
        latency_ms: outcome_of(results, entry.cfg.id).0,
        reachable: outcome_of(results, entry.cfg.id).1,
    }
}

/// The outcome that counts for the backend `id`.
fn lookup(results: &Vec<ProbeResult>, id: &String) -> (r: (Option<u64>, bool))
    ensures
        r == outcome_of(probe_views(results@), id@),
{
    let ghost all = probe_views(results@);
    let mut k: usize = results.len();
    assert(all.take(k as int) =~= all);
    while k > 0
        invariant
            k <= results.len(),
            all == probe_views(results@),
            outcome_of(all, id@) == outcome_of(all.take(k as int), id@),
        decreases k,
    {
        let ghost upto = all.take(k as int);
        assert(upto.last() == results@[k - 1]@);
        assert(upto.drop_last() =~= all.take(k - 1));
        if results[k - 1].id == *id {
            return (results[k - 1].latency_ms, results[k - 1].reachable);
        }
        k -= 1;
    }
    (None, false)
}

/// Assembles the status report: the selected id, and every backend of the
/// catalog, in the catalog's order, with the outcome of its dial.
pub fn handle_status(catalog: &Catalog, signal: Option<&str>, results: &Vec<ProbeResult>) -> (r:
    StatusResponse)
    ensures
        r.schema == 1,
        r.selected_id@ == catalog@.resolve(opt_str(signal)),
        r.servers.len() == catalog@.entries.len(),
        forall|i: int|
            0 <= i < r.servers.len() ==> (#[trigger] r.servers@[i])@ == status_of(
                catalog@.entries[i],
                probe_views(results@),
            ),
{
    let selected_id = catalog.selected_id(signal);
    let mut servers: Vec<ServerPublic> = Vec::new();
    let n = catalog.len();
    let mut i: usize = 0;
    while i < n
        invariant
            i <= n == catalog@.entries.len(),
            servers.len() == i,
            forall|k: int|
                0 <= k < i ==> (#[trigger] servers@[k])@ == status_of(
                    catalog@.entries[k],
                    probe_views(results@),
                ),
        decreases n - i,
    {
        let entry = catalog.entry_at(i);
        let outcome = lookup(results, &entry.cfg.id);
        servers.push(
            ServerPublic {
                id: entry.cfg.id.clone(),
                name: entry.cfg.name.clone(),
                kind: entry.cfg.kind,
                base_url: entry.cfg.base_url.clone(),
                latency_ms: outcome.0,
                reachable: outcome.1,
            },
        );
        i += 1;
    }
    StatusResponse { schema: 1, selected_id, servers }
}

/// Whether an outcome is of the kind that a dial gives: a latency exactly
/// where the backend was reached.
pub open spec fn is_dial_outcome(p: ProbeSpec) -> bool {
    p.reachable == (p.latency_ms is Some)
}

/// A backend that was not reached, or for which no outcome came in, is
/// reported unreachable and without latency; one that was reached, with
/// its latency.
pub proof fn law_unreachable_has_no_latency(entry: EntrySpec, results: Seq<ProbeSpec>)
    requires
        forall|i: int| 0 <= i < results.len() ==> is_dial_outcome(#[trigger] results[i]),
    ensures
        status_of(entry, results).reachable == (status_of(entry, results).latency_ms is Some),
        (forall|i: int| 0 <= i < results.len() ==> (#[trigger] results[i]).id != entry.cfg.id)
            ==> !status_of(entry, results).reachable,
    decreases results.len(),
{
    if results.len() > 0 {
        let before = results.drop_last();
        assert forall|i: int| 0 <= i < before.len() implies is_dial_outcome(
            #[trigger] before[i],
        ) by {
            assert(before[i] == results[i]);
        }
        law_unreachable_has_no_latency(entry, before);
        assert(results.last() == results[results.len() - 1]);
        if forall|i: int| 0 <= i < results.len() ==> (#[trigger] results[i]).id != entry.cfg.id {
            assert forall|i: int| 0 <= i < before.len() implies (#[trigger] before[i]).id
                != entry.cfg.id by {
                assert(before[i] == results[i]);
            }
        }
    }
}

} // verus!
