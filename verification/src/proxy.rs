//! The forwarder: what is sent upstream for an inbound request, the
//! bounded buffering of its body, and the two-attempt protocol that
//! recovers from one stale session token.

use vstd::prelude::*;
use axum::http::HeaderMap;
use crate::address::{UrlError, target_url, build_target_url, opt_str, opt_text};
use crate::catalog::{BackendType, ServerEntry, EntrySpec};
use crate::headers::{
    HeaderFault, HEADER_ROOM, header_fields, header_key, is_value, request_fields, with_value,
    sanitize_request_headers, set_header, lemma_plain_name_is_key,
};
use crate::text::{chars_of, string_of};

verus! {

/// The ceiling, in bytes, of a proxied request body.
pub const MAX_BODY_BYTES: usize = 64 << 20;

/// The ceiling, in bytes, of the body of a selection request.
pub const MAX_SELECT_BYTES: usize = 1024;

/// The ceiling, in bytes, of the body of a configuration update.
pub const MAX_CONFIG_BYTES: usize = 64 * 1024;

/// Why a request body could not be buffered.
#[derive(Clone, Copy, Debug, PartialEq, Eq, Structural)]
pub enum ReadBodyError {
    /// The body is longer than the ceiling.
    TooLarge,
    /// The transport failed while the body was read.
    Other,
}

/// The body that the chunks make up, read in order against the ceiling
/// `limit`: a chunk that could not be read ends the reading, and so does
/// the first chunk that would bring the body over the ceiling.
pub open spec fn gathered(chunks: Seq<Option<Seq<u8>>>, limit: nat) -> Result<
    Seq<u8>,
    ReadBodyError,
>
    decreases chunks.len(),
{
    if chunks.len() == 0 {
        Ok(Seq::empty())
    } else {
        match gathered(chunks.drop_last(), limit) {
            Err(e) => Err(e),
            Ok(sofar) => match chunks.last() {
                None => Err(ReadBodyError::Other),
                Some(c) => if sofar.len() + c.len() > limit {
                    Err(ReadBodyError::TooLarge)
                } else {
                    Ok(sofar + c)
                },
            },
        }
    }
}

/// The summed length of the chunks that were read.
pub open spec fn total_len(chunks: Seq<Option<Seq<u8>>>) -> int
    decreases chunks.len(),
{
    if chunks.len() == 0 {
        0
    } else {
        total_len(chunks.drop_last()) + match chunks.last() {
            Some(c) => c.len() as int,
            None => 0,
        }
    }
}

/// Adds a chunk to the buffered body unless that would bring it over the
/// ceiling, in which case the body is left as it is.
pub fn push_chunk(out: &mut Vec<u8>, chunk: &Vec<u8>, limit: usize) -> (r: Result<
    (),
    ReadBodyError,
>)
    ensures
        r is Ok <==> old(out)@.len() + chunk@.len() <= limit,
        r is Ok ==> final(out)@ == old(out)@ + chunk@,
        r is Err ==> r == Err::<(), ReadBodyError>(ReadBodyError::TooLarge) && final(out)@ == old(
            out,
        )@,
{
    if out.len() > limit || chunk.len() > limit - out.len() {
        return Err(ReadBodyError::TooLarge);
    }
    let mut i: usize = 0;
    while i < chunk.len()
        invariant
            i <= chunk.len(),
            out@ == old(out)@ + chunk@.take(i as int),
        decreases chunk.len() - i,
    {
        out.push(chunk[i]);
        i += 1;
        assert(out@ =~= old(out)@ + chunk@.take(i as int));
    }
    assert(chunk@.take(chunk.len() as int) =~= chunk@);
    Ok(())
}

/// The contents of a list of chunks; `None` stands for a failed read.
pub open spec fn chunk_views(chunks: Seq<Option<Vec<u8>>>) -> Seq<Option<Seq<u8>>> {
    Seq::new(
        chunks.len(),
        |i: int|
            match chunks[i] {
                Some(c) => Some(c@),
                None => None,
            },
    )
}

/// Buffers a request body, chunk by chunk, up to the ceiling `limit`.
pub fn read_body_bytes(chunks: &Vec<Option<Vec<u8>>>, limit: usize) -> (r: Result<
    Vec<u8>,
    ReadBodyError,
>)
    ensures
        match r {
            Ok(body) => gathered(chunk_views(chunks@), limit as nat) == Ok::<
                Seq<u8>,
                ReadBodyError,
            >(body@),
            Err(e) => gathered(chunk_views(chunks@), limit as nat) == Err::<
                Seq<u8>,
                ReadBodyError,
            >(e),
        },
{
    let ghost all = chunk_views(chunks@);
    let mut out: Vec<u8> = Vec::new();
    let mut i: usize = 0;
    assert(all.take(0) =~= Seq::<Option<Seq<u8>>>::empty());
    while i < chunks.len()
        invariant
            i <= chunks.len(),
            all == chunk_views(chunks@),
            gathered(all.take(i as int), limit as nat) == Ok::<Seq<u8>, ReadBodyError>(out@),
        decreases chunks.len() - i,
    {
        let ghost more = all.take(i + 1);
        assert(more.drop_last() =~= all.take(i as int));
        assert(more.last() == all[i as int]);
        match &chunks[i] {
            Some(c) => {
                match push_chunk(&mut out, c, limit) {
                    Ok(()) => {},
                    Err(e) => {
                        proof {
                            lemma_gathered_stops(all, i + 1, limit as nat);
                        }
                        return Err(e);
                    },
                }
            },
            None => {
                proof {
                    lemma_gathered_stops(all, i + 1, limit as nat);
                }
                return Err(ReadBodyError::Other);
            },
        }
        i += 1;
    }
    assert(all.take(chunks.len() as int) =~= all);
    Ok(out)
}

/// Once the reading has failed, further chunks do not matter.
pub proof fn lemma_gathered_stops(chunks: Seq<Option<Seq<u8>>>, n: int, limit: nat)
    requires
        0 <= n <= chunks.len(),
        gathered(chunks.take(n), limit) is Err,
    ensures
        gathered(chunks, limit) == gathered(chunks.take(n), limit),
    decreases chunks.len() - n,
{
    if n < chunks.len() {
        assert(chunks.drop_last().take(n) =~= chunks.take(n));
        lemma_gathered_stops(chunks.drop_last(), n, limit);
    } else {
        assert(chunks.take(n) =~= chunks);
    }
}

/// A body whose chunks were all read is buffered exactly when it is no
/// longer than the ceiling: one of exactly the ceiling's length passes, a
/// byte more is refused as too large. What is buffered is as long as the
/// chunks together.
pub proof fn law_body_ceiling(chunks: Seq<Option<Seq<u8>>>, limit: nat)
    requires
        forall|i: int| 0 <= i < chunks.len() ==> (#[trigger] chunks[i]) is Some,
    ensures
        0 <= total_len(chunks),
        gathered(chunks, limit) is Ok <==> total_len(chunks) <= limit,
        gathered(chunks, limit) is Ok ==> gathered(chunks, limit)->Ok_0.len() == total_len(chunks),
        gathered(chunks, limit) is Err ==> gathered(chunks, limit) == Err::<
            Seq<u8>,
            ReadBodyError,
        >(ReadBodyError::TooLarge),
    decreases chunks.len(),
{
    if chunks.len() > 0 {
        let before = chunks.drop_last();
        assert forall|i: int| 0 <= i < before.len() implies (#[trigger] before[i]) is Some by {
            assert(before[i] == chunks[i]);
        }
        law_body_ceiling(before, limit);
        assert(chunks.last() == chunks[chunks.len() - 1]);
    }
}

/// What is sent upstream for one inbound request.
pub struct ForwardPlan {
    /// The address of the upstream call.
    pub url: String,
    /// The headers of the upstream call.
    pub headers: HeaderMap,
    /// The user name and password for HTTP Basic authentication, where it
    /// applies.
    pub basic_auth: Option<(String, String)>,
}

/// Why nothing can be sent upstream.
#[derive(Clone, Copy, Debug, PartialEq, Eq, Structural)]
pub enum ForwardError {
    /// The target address could not be built.
    Url { cause: UrlError },
    /// A header that the gateway derives could not be set.
    Header { fault: HeaderFault },
}

/// The bytes of `text` in UTF-8.
pub open spec fn utf8(text: Seq<char>) -> Seq<u8> {
    vstd::utf8::encode_utf8(text)
}

/// The values of the headers that the gateway adds for `entry`: for a
/// backend that logs in with a form its origin, the origin with a slash
/// as referer, and the session token where there is one; for any other
/// backend none.
pub open spec fn derived_values(entry: EntrySpec, token: Option<Seq<char>>) -> Seq<
    (Seq<char>, Seq<char>),
> {
    if entry.cfg.kind == BackendType::Qbit {
        let fixed = seq![("origin"@, entry.origin), ("referer"@, entry.origin + seq!['/'])];
        match token {
            Some(t) => fixed.push(("cookie"@, t)),
            None => fixed,
        }
    } else {
        Seq::empty()
    }
}

/// The fields once the first `n` of `derived` have been set, in order.
pub open spec fn with_derived(
    fields: Map<Seq<char>, Seq<Seq<u8>>>,
    derived: Seq<(Seq<char>, Seq<char>)>,
    n: int,
) -> Map<Seq<char>, Seq<Seq<u8>>>
    decreases n,
{
    if n <= 0 {
        fields
    } else {
        with_value(with_derived(fields, derived, n - 1), derived[n - 1].0, utf8(derived[n - 1].1))
    }
}

/// The headers that go upstream: those of the inbound request that are
/// passed on, and the ones the gateway derives.
pub open spec fn outbound_fields(
    entry: EntrySpec,
    inbound: Map<Seq<char>, Seq<Seq<u8>>>,
    token: Option<Seq<char>>,
) -> Map<Seq<char>, Seq<Seq<u8>>> {
    let derived = derived_values(entry, token);
    with_derived(request_fields(inbound), derived, derived.len() as int)
}

/// Whether every header that the gateway derives has a value that may
/// stand in a header.
pub open spec fn derived_valid(entry: EntrySpec, token: Option<Seq<char>>) -> bool {
    forall|i: int|
        0 <= i < derived_values(entry, token).len() ==> is_value(
            utf8((#[trigger] derived_values(entry, token)[i]).1),
        )
}

/// Whether the header map of the inbound request is sure to take what the
/// gateway derives: nothing is derived, or the request's header names and
/// the derived ones together stay within `HEADER_ROOM`.
pub open spec fn room_for_derived(
    entry: EntrySpec,
    inbound: Map<Seq<char>, Seq<Seq<u8>>>,
    token: Option<Seq<char>>,
) -> bool {
    let derived = derived_values(entry, token);
    derived.len() == 0 || (inbound.dom().finite() && inbound.dom().len() + derived.len()
        <= HEADER_ROOM)
}

/// The credentials for HTTP Basic authentication: those of a backend that
/// takes them with every request, where it has a user name or a password.
pub open spec fn basic_auth_of(entry: EntrySpec) -> Option<(Seq<char>, Seq<char>)> {
    if entry.cfg.kind == BackendType::Trans && (entry.cfg.username.len() > 0
        || entry.cfg.password.len() > 0) {
        Some((entry.cfg.username, entry.cfg.password))
    } else {
        None
    }
}

/// The view of an optional pair of strings.
pub open spec fn opt_pair(p: Option<(String, String)>) -> Option<(Seq<char>, Seq<char>)> {
    match p {
        Some((a, b)) => Some((a@, b@)),
        None => None,
    }
}

/// The names of the headers that the gateway derives are filed under
/// themselves.
pub proof fn lemma_derived_names()
    ensures
        header_key("origin"@) == Some("origin"@),
        header_key("referer"@) == Some("referer"@),
        header_key("cookie"@) == Some("cookie"@),
{
    reveal_strlit("origin");
    reveal_strlit("referer");
    reveal_strlit("cookie");
    lemma_plain_name_is_key("origin"@);
    lemma_plain_name_is_key("referer"@);
    lemma_plain_name_is_key("cookie"@);
}

/// Plans the upstream call for one inbound request: the target address,
/// the scrubbed headers with those that the gateway derives, and the
/// Basic credentials where they apply.
///
/// The address is settled first, then the derived headers in order. A
/// derived value that no header may hold is refused. A plan is owed
/// whenever the address can be built, every derived value may stand in a
/// header and the header map has room for them; a backend for which
/// nothing is derived needs no room. Beyond `HEADER_ROOM` names the header
/// map itself decides whether it takes another.
pub fn forward_once(
    entry: &ServerEntry,
    path: &str,
    query: Option<&str>,
    headers: HeaderMap,
    qbit_cookie: Option<&str>,
) -> (r: Result<ForwardPlan, ForwardError>)
    ensures
        match r {
            Ok(plan) => {
                &&& target_url(entry@.base, path@, opt_str(query)) == Ok::<Seq<char>, UrlError>(
                    plan.url@,
                )
                &&& derived_valid(entry@, opt_str(qbit_cookie))
                &&& header_fields(plan.headers) == outbound_fields(
                    entry@,
                    header_fields(headers),
                    opt_str(qbit_cookie),
                )
                &&& opt_pair(plan.basic_auth) == basic_auth_of(entry@)
            },
            Err(ForwardError::Url { cause }) => target_url(entry@.base, path@, opt_str(query))
                == Err::<Seq<char>, UrlError>(cause),
            Err(ForwardError::Header { fault }) => {
                &&& target_url(entry@.base, path@, opt_str(query)) is Ok
                &&& fault != HeaderFault::Name
                &&& fault == HeaderFault::Value ==> !derived_valid(entry@, opt_str(qbit_cookie))
                &&& fault == HeaderFault::Full ==> !room_for_derived(
                    entry@,
                    header_fields(headers),
                    opt_str(qbit_cookie),
                )
            },
        },
        !derived_valid(entry@, opt_str(qbit_cookie)) ==> r is Err,
        target_url(entry@.base, path@, opt_str(query)) is Ok && derived_valid(
            entry@,
            opt_str(qbit_cookie),
        ) && room_for_derived(entry@, header_fields(headers), opt_str(qbit_cookie)) ==> r is Ok,
{
    let url = match build_target_url(&entry.base, path, query) {
        Ok(u) => u,
        Err(cause) => {
            return Err(ForwardError::Url { cause });
        },
    };
    let ghost derived = derived_values(entry@, opt_str(qbit_cookie));
    let ghost inbound = header_fields(headers);
    let ghost kept = request_fields(inbound);
    let ghost room = room_for_derived(entry@, inbound, opt_str(qbit_cookie));
    let mut out = sanitize_request_headers(headers);
    proof {
        lemma_derived_names();
    }
    assert(header_fields(out) == with_derived(kept, derived, 0));
    match entry.cfg.kind {
        BackendType::Qbit => {
            proof {
                if room {
                    assert(kept.dom().subset_of(inbound.dom()));
                    vstd::set_lib::lemma_len_subset(kept.dom(), inbound.dom());
                }
            }
            match set_header(&mut out, "origin", entry.origin.as_str()) {
                Some(fault) => {
                    assert(fault == HeaderFault::Value ==> !is_value(utf8(derived[0].1)));
                    return Err(ForwardError::Header { fault });
                },
                None => {},
            }
            assert(header_fields(out) == with_derived(kept, derived, 1)) by {
                reveal_with_fuel(with_derived, 2);
            }
            assert(room ==> header_fields(out).dom().finite() && header_fields(out).dom().len()
                <= kept.dom().len() + 1);
            let mut referer = chars_of(entry.origin.as_str());
            referer.push('/');
            assert(referer@ =~= entry@.origin + seq!['/']);
            let referer = string_of(&referer);
            match set_header(&mut out, "referer", referer.as_str()) {
                Some(fault) => {
                    assert(fault == HeaderFault::Value ==> !is_value(utf8(derived[1].1)));
                    return Err(ForwardError::Header { fault });
                },
                None => {},
            }
            assert(header_fields(out) == with_derived(kept, derived, 2)) by {
                reveal_with_fuel(with_derived, 3);
            }
            assert(room ==> header_fields(out).dom().finite() && header_fields(out).dom().len()
                <= kept.dom().len() + 2);
            match qbit_cookie {
                Some(token) => {
                    match set_header(&mut out, "cookie", token) {
                        Some(fault) => {
                            assert(fault == HeaderFault::Value ==> !is_value(utf8(derived[2].1)));
                            return Err(ForwardError::Header { fault });
                        },
                        None => {},
                    }
                    assert(header_fields(out) == with_derived(kept, derived, 3)) by {
                        reveal_with_fuel(with_derived, 4);
                    }
                },
                None => {},
            }
        },
        BackendType::Trans => {},
    }
    let basic_auth = match entry.cfg.kind {
        BackendType::Trans => {
            if !entry.cfg.username.as_str().is_empty() || !entry.cfg.password.as_str().is_empty() {
                Some((entry.cfg.username.clone(), entry.cfg.password.clone()))
            } else {
                None
            }
        },
        BackendType::Qbit => None,
    };
    Ok(ForwardPlan { url, headers: out, basic_auth })
}

/// The status of the answer to a body that is longer than the ceiling.
pub const PAYLOAD_TOO_LARGE: u16 = 413;

/// The status of the answer to a body that could not be read.
pub const BAD_REQUEST: u16 = 400;

/// The status with which a backend rejects a stale session.
pub const FORBIDDEN: u16 = 403;

/// The status of the answer where no upstream reply can be relayed.
pub const BAD_GATEWAY: u16 = 502;

impl ReadBodyError {
    /// The status of the answer to a proxied request whose body could not
    /// be buffered: 413 where it is too large, else 400.
    pub fn status(&self) -> (s: u16)
        ensures
            s == (if *self == ReadBodyError::TooLarge {
                PAYLOAD_TOO_LARGE
            } else {
                BAD_REQUEST
            }),
    {
        match self {
            ReadBodyError::TooLarge => PAYLOAD_TOO_LARGE,
            ReadBodyError::Other => BAD_REQUEST,
        }
    }
}

/// Which of the two upstream attempts is under way.
#[derive(Clone, Copy, Debug, PartialEq, Eq, Structural)]
pub enum Attempt {
    /// The first attempt.
    First,
    /// The one retry, after a forced login.
    Retry,
}

/// Where the handling of a proxied request stands.
#[derive(Clone, Copy, Debug, PartialEq, Eq, Structural)]
pub enum Phase {
    /// Nothing has happened yet.
    Start,
    /// A session token was asked for.
    AwaitToken { attempt: Attempt },
    /// The request went upstream.
    AwaitReply { attempt: Attempt },
    /// The caller has its answer.
    Done,
}

/// What has to be done next for a proxied request.
#[derive(Clone, Copy, Debug, PartialEq, Eq, Structural)]
pub enum ProxyAction {
    /// Answer with the status of `error`: the body could not be buffered.
    RejectBody { error: ReadBodyError },
    /// Ask the session manager for a token; `force` asks for a new login.
    Login { force: bool },
    /// Send the request upstream, with the token that the run holds.
    Forward,
    /// Pass the upstream reply back to the caller, whatever its status.
    Relay,
    /// Answer 502: no session token could be had.
    FailAuth,
    /// Answer 502: the upstream call failed.
    FailUpstream,
    /// The event does not belong to this phase: nothing happens.
    Nothing,
}

/// What happened to a proxied request.
pub enum ProxyEvent {
    /// The body is buffered.
    Begin,
    /// The body could not be buffered.
    BodyFailed { error: ReadBodyError },
    /// The session manager has a token.
    Token { token: String },
    /// The session manager has none.
    NoToken,
    /// The backend answered with `status`.
    Reply { status: u16 },
    /// The upstream call failed.
    SendFailed,
}

/// The mathematical content of a `ProxyEvent`.
pub enum EventSpec {
    Begin,
    BodyFailed { error: ReadBodyError },
    Token { token: Seq<char> },
    NoToken,
    Reply { status: u16 },
    SendFailed,
}

impl View for ProxyEvent {
    type V = EventSpec;

    open spec fn view(&self) -> EventSpec {
        match self {
            ProxyEvent::Begin => EventSpec::Begin,
            ProxyEvent::BodyFailed { error } => EventSpec::BodyFailed { error: *error },
            ProxyEvent::Token { token } => EventSpec::Token { token: token@ },
            ProxyEvent::NoToken => EventSpec::NoToken,
            ProxyEvent::Reply { status } => EventSpec::Reply { status: *status },
            ProxyEvent::SendFailed => EventSpec::SendFailed,
        }
    }
}

/// The mathematical content of a `ProxyRun`.
pub struct RunSpec {
    pub kind: BackendType,
    pub phase: Phase,
    pub token: Option<Seq<char>>,
}

impl RunSpec {
    /// The run of a request to a backend of kind `kind`, before anything
    /// has happened.
    pub open spec fn start(kind: BackendType) -> RunSpec {
        RunSpec { kind, phase: Phase::Start, token: None }
    }

    /// The run in another phase.
    pub open spec fn at(self, phase: Phase) -> RunSpec {
        RunSpec { kind: self.kind, phase, token: self.token }
    }

    /// The state after `event`, and what has to be done next.
    ///
    /// A body that could not be buffered ends the request before anything
    /// is sent. A backend that logs in with a form is asked for a token
    /// first; one that cannot be had ends the request. A reply of 403 to
    /// the first attempt asks for one forced login and one more attempt,
    /// which goes out with the new token, or with the old one where the
    /// login failed; the reply to that attempt is relayed whatever its
    /// status. An event that does not belong to the phase changes nothing.
    pub open spec fn step(self, event: EventSpec) -> (RunSpec, ProxyAction) {
        match (self.phase, event) {
            (Phase::Start, EventSpec::BodyFailed { error }) => (
                self.at(Phase::Done),
                ProxyAction::RejectBody { error },
            ),
            (Phase::Start, EventSpec::Begin) => if self.kind == BackendType::Qbit {
                (
                    self.at(Phase::AwaitToken { attempt: Attempt::First }),
                    ProxyAction::Login { force: false },
                )
            } else {
                (self.at(Phase::AwaitReply { attempt: Attempt::First }), ProxyAction::Forward)
            },
            (Phase::AwaitToken { attempt }, EventSpec::Token { token }) => (
                RunSpec {
                    kind: self.kind,
                    phase: Phase::AwaitReply { attempt },
                    token: Some(token),
                },
                ProxyAction::Forward,
            ),
            (Phase::AwaitToken { attempt: Attempt::First }, EventSpec::NoToken) => (
                self.at(Phase::Done),
                ProxyAction::FailAuth,
            ),
            (Phase::AwaitToken { attempt: Attempt::Retry }, EventSpec::NoToken) => (
                self.at(Phase::AwaitReply { attempt: Attempt::Retry }),
                ProxyAction::Forward,
            ),
            (Phase::AwaitReply { attempt: Attempt::First }, EventSpec::Reply { status }) => if
                status == FORBIDDEN && self.kind == BackendType::Qbit {
                (
                    self.at(Phase::AwaitToken { attempt: Attempt::Retry }),
                    ProxyAction::Login { force: true },
                )
            } else {
                (self.at(Phase::Done), ProxyAction::Relay)
            },
            (Phase::AwaitReply { attempt: Attempt::Retry }, EventSpec::Reply { status }) => (
                self.at(Phase::Done),
                ProxyAction::Relay,
            ),
            (Phase::AwaitReply { attempt }, EventSpec::SendFailed) => (
                self.at(Phase::Done),
                ProxyAction::FailUpstream,
            ),
            _ => (self, ProxyAction::Nothing),
        }
    }

    /// The state after the events, in order.
    pub open spec fn after(self, events: Seq<EventSpec>) -> RunSpec
        decreases events.len(),
    {
        if events.len() == 0 {
            self
        } else {
            self.after(events.drop_last()).step(events.last()).0
        }
    }

    /// The actions that the events call for, in order.
    pub open spec fn actions(self, events: Seq<EventSpec>) -> Seq<ProxyAction>
        decreases events.len(),
    {
        if events.len() == 0 {
            Seq::empty()
        } else {
            self.actions(events.drop_last()).push(
                self.after(events.drop_last()).step(events.last()).1,
            )
        }
    }
}

/// How often `action` occurs in `actions`.
pub open spec fn count_of(actions: Seq<ProxyAction>, action: ProxyAction) -> nat
    decreases actions.len(),
{
    if actions.len() == 0 {
        0
    } else {
        count_of(actions.drop_last(), action) + if actions.last() == action {
            1nat
        } else {
            0nat
        }
    }
}

/// The number of upstream attempts that a run in `phase` has used up; a
/// run that is done has used up both.
pub open spec fn forwards_used(phase: Phase) -> nat {
    match phase {
        Phase::Start => 0,
        Phase::AwaitToken { attempt: Attempt::First } => 0,
        Phase::AwaitReply { attempt: Attempt::First } => 1,
        Phase::AwaitToken { attempt: Attempt::Retry } => 1,
        Phase::AwaitReply { attempt: Attempt::Retry } => 2,
        Phase::Done => 2,
    }
}

/// The number of forced logins that a run in `phase` has used up; a run
/// that is done has used up the one there is.
pub open spec fn forced_used(phase: Phase) -> nat {
    match phase {
        Phase::Start => 0,
        Phase::AwaitToken { attempt: Attempt::First } => 0,
        Phase::AwaitReply { attempt: Attempt::First } => 0,
        Phase::AwaitToken { attempt: Attempt::Retry } => 1,
        Phase::AwaitReply { attempt: Attempt::Retry } => 1,
        Phase::Done => 1,
    }
}

/// The handling of one proxied request: the kind of its backend, where it
/// stands, and the session token that the next upstream attempt carries.
pub struct ProxyRun {
    kind: BackendType,
    phase: Phase,
    token: Option<String>,
}

impl View for ProxyRun {
    type V = RunSpec;

    closed spec fn view(&self) -> RunSpec {
        RunSpec { kind: self.kind, phase: self.phase, token: opt_text(self.token) }
    }
}

impl ProxyRun {
    /// The run of a request to a backend of kind `kind`.
    pub fn new(kind: BackendType) -> (r: Self)
        ensures
            r@ == RunSpec::start(kind),
    {
        ProxyRun { kind, phase: Phase::Start, token: None }
    }

    /// Where the run stands.
    pub fn phase(&self) -> (p: Phase)
        ensures
            p == self@.phase,
    {
        self.phase
    }

    /// The session token that the next upstream attempt carries.
    pub fn token(&self) -> (t: &Option<String>)
        ensures
            opt_text(*t) == self@.token,
    {
        &self.token
    }

    /// Takes in what happened and says what has to be done next.
    pub fn step(&mut self, event: ProxyEvent) -> (action: ProxyAction)
        ensures
            (*final(self))@ == old(self)@.step(event@).0,
            action == old(self)@.step(event@).1,
    {
        match event {
            ProxyEvent::BodyFailed { error } => match self.phase {
                Phase::Start => {
                    self.phase = Phase::Done;
                    ProxyAction::RejectBody { error }
                },
                _ => ProxyAction::Nothing,
            },
            ProxyEvent::Begin => match self.phase {
                Phase::Start => match self.kind {
                    BackendType::Qbit => {
                        self.phase = Phase::AwaitToken { attempt: Attempt::First };
                        ProxyAction::Login { force: false }
                    },
                    BackendType::Trans => {
                        self.phase = Phase::AwaitReply { attempt: Attempt::First };
                        ProxyAction::Forward
                    },
                },
                _ => ProxyAction::Nothing,
            },
            ProxyEvent::Token { token } => match self.phase {
                Phase::AwaitToken { attempt } => {
                    self.phase = Phase::AwaitReply { attempt };
                    self.token = Some(token);
                    ProxyAction::Forward
                },
                _ => ProxyAction::Nothing,
            },
            ProxyEvent::NoToken => match self.phase {
                Phase::AwaitToken { attempt: Attempt::First } => {
                    self.phase = Phase::Done;
                    ProxyAction::FailAuth
                },
                Phase::AwaitToken { attempt: Attempt::Retry } => {
                    self.phase = Phase::AwaitReply { attempt: Attempt::Retry };
                    ProxyAction::Forward
                },
                _ => ProxyAction::Nothing,
            },
            ProxyEvent::Reply { status } => match self.phase {
                Phase::AwaitReply { attempt: Attempt::First } => {
                    let logs_in = match self.kind {
                        BackendType::Qbit => true,
                        BackendType::Trans => false,
                    };
                    if status == FORBIDDEN && logs_in {
                        self.phase = Phase::AwaitToken { attempt: Attempt::Retry };
                        ProxyAction::Login { force: true }
                    } else {
                        self.phase = Phase::Done;
                        ProxyAction::Relay
                    }
                },
                Phase::AwaitReply { attempt: Attempt::Retry } => {
                    self.phase = Phase::Done;
                    ProxyAction::Relay
                },
                _ => ProxyAction::Nothing,
            },
            ProxyEvent::SendFailed => match self.phase {
                Phase::AwaitReply { attempt } => {
                    self.phase = Phase::Done;
                    ProxyAction::FailUpstream
                },
                _ => ProxyAction::Nothing,
            },
        }
    }
}

/// A step that sends the request upstream uses up an attempt, one that
/// asks for a forced login uses up the forced login, and no step gives
/// anything back.
pub proof fn lemma_step_uses_up(s: RunSpec, event: EventSpec)
    ensures
        s.step(event).1 == ProxyAction::Forward ==> forwards_used(s.step(event).0.phase)
            == forwards_used(s.phase) + 1,
        s.step(event).1 == (ProxyAction::Login { force: true }) ==> forced_used(
            s.step(event).0.phase,
        ) == forced_used(s.phase) + 1,
        forwards_used(s.phase) <= forwards_used(s.step(event).0.phase),
        forced_used(s.phase) <= forced_used(s.step(event).0.phase),
        s.phase == Phase::Done ==> s.step(event) == (s, ProxyAction::Nothing),
{
}

/// Over any events, what a run sends upstream and the forced logins it
/// asks for are covered by what its phase has used up in the end.
pub proof fn lemma_run_uses_up(s: RunSpec, events: Seq<EventSpec>)
    ensures
        forwards_used(s.phase) + count_of(s.actions(events), ProxyAction::Forward)
            <= forwards_used(s.after(events).phase),
        forced_used(s.phase) + count_of(s.actions(events), ProxyAction::Login { force: true })
            <= forced_used(s.after(events).phase),
        s.phase == Phase::Done ==> s.after(events) == s,
    decreases events.len(),
{
    if events.len() > 0 {
        let before = events.drop_last();
        lemma_run_uses_up(s, before);
        lemma_step_uses_up(s.after(before), events.last());
        assert(s.actions(events).drop_last() =~= s.actions(before));
    }
}

/// Whatever happens and in whatever order, a request goes upstream at
/// most twice and a forced login is asked for at most once.
pub proof fn law_bounded_retry(kind: BackendType, events: Seq<EventSpec>)
    ensures
        count_of(RunSpec::start(kind).actions(events), ProxyAction::Forward) <= 2,
        count_of(RunSpec::start(kind).actions(events), ProxyAction::Login { force: true }) <= 1,
{
    lemma_run_uses_up(RunSpec::start(kind), events);
}

/// A request whose body could not be buffered, one that is a byte over
/// the ceiling too, is answered with the status of that failure and never
/// goes upstream, whatever happens afterwards.
pub proof fn law_refused_body_sends_nothing(
    kind: BackendType,
    error: ReadBodyError,
    rest: Seq<EventSpec>,
)
    ensures
        ({
            let events = seq![EventSpec::BodyFailed { error }] + rest;
            let run = RunSpec::start(kind);
            &&& run.actions(events)[0] == ProxyAction::RejectBody { error }
            &&& run.after(events).phase == Phase::Done
            &&& count_of(run.actions(events), ProxyAction::Forward) == 0
            &&& count_of(run.actions(events), ProxyAction::Login { force: false }) == 0
            &&& count_of(run.actions(events), ProxyAction::Login { force: true }) == 0
        }),
    decreases rest.len(),
{
    let first = seq![EventSpec::BodyFailed { error }];
    let events = first + rest;
    let run = RunSpec::start(kind);
    let acts = run.actions(events);
    let none = Seq::<ProxyAction>::empty();
    if rest.len() == 0 {
        assert(events =~= first);
        let nothing = Seq::<EventSpec>::empty();
        assert(first.drop_last() =~= nothing);
        assert(run.after(nothing) == run);
        assert(run.actions(nothing) =~= none);
        assert(acts =~= seq![ProxyAction::RejectBody { error }]);
        assert(acts.drop_last() =~= none);
        assert(count_of(none, ProxyAction::Forward) == 0);
        assert(count_of(none, ProxyAction::Login { force: false }) == 0);
        assert(count_of(none, ProxyAction::Login { force: true }) == 0);
    } else {
        let before = first + rest.drop_last();
        law_refused_body_sends_nothing(kind, error, rest.drop_last());
        assert(events.drop_last() =~= before);
        lemma_actions_len(run, before);
        lemma_step_uses_up(run.after(before), events.last());
        assert(acts.drop_last() =~= run.actions(before));
        assert(acts.last() == ProxyAction::Nothing);
        assert(acts[0] == run.actions(before)[0]);
    }
}

/// Every event calls for one action.
pub proof fn lemma_actions_len(s: RunSpec, events: Seq<EventSpec>)
    ensures
        s.actions(events).len() == events.len(),
    decreases events.len(),
{
    if events.len() > 0 {
        lemma_actions_len(s, events.drop_last());
    }
}

/// A backend that logs in with a form and answers the first attempt with
/// 403 is asked for exactly one forced login and gets exactly one more
/// attempt, which carries the new token; the reply to that attempt is
/// relayed whatever its status, a second 403 too, and nothing that
/// happens afterwards has any effect.
pub proof fn law_forbidden_retries_once(first: Seq<char>, second: Seq<char>, status: u16)
    ensures
        ({
            let events = seq![
                EventSpec::Begin,
                EventSpec::Token { token: first },
                EventSpec::Reply { status: FORBIDDEN },
                EventSpec::Token { token: second },
                EventSpec::Reply { status },
            ];
            let run = RunSpec::start(BackendType::Qbit);
            &&& run.actions(events) == seq![
                ProxyAction::Login { force: false },
                ProxyAction::Forward,
                ProxyAction::Login { force: true },
                ProxyAction::Forward,
                ProxyAction::Relay,
            ]
            &&& run.after(events.take(2)).token == Some(first)
            &&& run.after(events.take(4)).token == Some(second)
            &&& run.after(events).phase == Phase::Done
            &&& forall|more: EventSpec| run.after(events).step(more).1 == ProxyAction::Nothing
        }),
{
    let events = seq![
        EventSpec::Begin,
        EventSpec::Token { token: first },
        EventSpec::Reply { status: FORBIDDEN },
        EventSpec::Token { token: second },
        EventSpec::Reply { status },
    ];
    let run = RunSpec::start(BackendType::Qbit);
    let e0 = Seq::<EventSpec>::empty();
    assert(run.after(e0) == run);
    assert(run.actions(e0) =~= Seq::<ProxyAction>::empty());
    let e1 = events.take(1);
    let e2 = events.take(2);
    let e3 = events.take(3);
    let e4 = events.take(4);
    assert(e1.drop_last() =~= e0);
    assert(e2.drop_last() =~= e1);
    assert(e3.drop_last() =~= e2);
    assert(e4.drop_last() =~= e3);
    assert(events.drop_last() =~= e4);
    assert(run.after(e1).phase == Phase::AwaitToken { attempt: Attempt::First });
    assert(run.after(e2).phase == Phase::AwaitReply { attempt: Attempt::First });
    assert(run.after(e3).phase == Phase::AwaitToken { attempt: Attempt::Retry });
    assert(run.after(e4).phase == Phase::AwaitReply { attempt: Attempt::Retry });
    assert(run.after(events).phase == Phase::Done);
    assert(run.actions(e1) =~= seq![ProxyAction::Login { force: false }]);
    assert(run.actions(e2) =~= seq![ProxyAction::Login { force: false }, ProxyAction::Forward]);
    assert(run.actions(e3) =~= seq![
        ProxyAction::Login { force: false },
        ProxyAction::Forward,
        ProxyAction::Login { force: true },
    ]);
    assert(run.actions(e4) =~= seq![
        ProxyAction::Login { force: false },
        ProxyAction::Forward,
        ProxyAction::Login { force: true },
        ProxyAction::Forward,
    ]);
    assert(run.actions(events) =~= seq![
        ProxyAction::Login { force: false },
        ProxyAction::Forward,
        ProxyAction::Login { force: true },
        ProxyAction::Forward,
        ProxyAction::Relay,
    ]);
}

} // verus!
