//! The session manager: for each backend that logs in with a form, a
//! lazily obtained session token, renewed on demand.

use vstd::prelude::*;
use axum::http::HeaderMap;
use crate::address::{UrlError, joined_url, join_url, opt_text};
use crate::catalog::{ServerEntry, EntrySpec};
use crate::headers::{header_fields, values_of, cookie_pairs, extract_set_cookie_pairs};
use crate::text::{
    chars_of, string_of, trim_chars, trimmed, has_run, contains_run, joined, join_chars,
};

verus! {

/// The text that `String::from_utf8_lossy` makes of `bytes`.
pub uninterp spec fn utf8_lossy(bytes: Seq<u8>) -> Seq<char>;

/// Calls `String::from_utf8_lossy`. The contract only names the outcome:
/// it depends on the bytes alone.
#[verifier::external_body]
pub(crate) fn lossy_text(bytes: &Vec<u8>) -> (s: String)
    ensures
        s@ == utf8_lossy(bytes@),
{
    String::from_utf8_lossy(bytes).into_owned()
}

/// Why no session token could be had.
pub enum AuthError {
    /// The backend has neither a user name nor a password configured.
    MissingCredentials,
    /// The login address could not be built.
    LoginUrl { cause: UrlError },
    /// The backend answered the login with a status other than 200.
    Rejected { status: u16, excerpt: String },
    /// The backend's answer does not hold the success marker.
    NotConfirmed { excerpt: String },
    /// The backend's answer sets no cookie.
    NoCookies,
}

/// The mathematical content of an `AuthError`.
pub enum AuthFault {
    MissingCredentials,
    LoginUrl { cause: UrlError },
    Rejected { status: u16, excerpt: Seq<char> },
    NotConfirmed { excerpt: Seq<char> },
    NoCookies,
}

impl View for AuthError {
    type V = AuthFault;

    open spec fn view(&self) -> AuthFault {
        match self {
            AuthError::MissingCredentials => AuthFault::MissingCredentials,
            AuthError::LoginUrl { cause } => AuthFault::LoginUrl { cause: *cause },
            AuthError::Rejected { status, excerpt } => AuthFault::Rejected {
                status: *status,
                excerpt: excerpt@,
            },
            AuthError::NotConfirmed { excerpt } => AuthFault::NotConfirmed { excerpt: excerpt@ },
            AuthError::NoCookies => AuthFault::NoCookies,
        }
    }
}

/// Whether a result holds the token that `expected` holds, or the same
/// fault.
pub open spec fn same_token(
    r: Result<String, AuthError>,
    expected: Result<Seq<char>, AuthFault>,
) -> bool {
    match r {
        Ok(t) => expected == Ok::<Seq<char>, AuthFault>(t@),
        Err(e) => expected == Err::<Seq<char>, AuthFault>(e@),
    }
}

/// What a login reply amounts to: the session token, made of the
/// `name=value` pairs of its `Set-Cookie` headers joined with `"; "`, where
/// the status is 200, the body holds the marker `Ok` and a cookie was set;
/// else the fault, with the status and the trimmed body.
pub open spec fn login_verdict(
    status: u16,
    body: Seq<u8>,
    fields: Map<Seq<char>, Seq<Seq<u8>>>,
) -> Result<Seq<char>, AuthFault> {
    let text = utf8_lossy(body);
    let pairs = cookie_pairs(values_of(fields, "set-cookie"@));
    if status != 200 {
        Err(AuthFault::Rejected { status, excerpt: trimmed(text) })
    } else if !has_run(text, "Ok"@) {
        Err(AuthFault::NotConfirmed { excerpt: trimmed(text) })
    } else if pairs.len() == 0 {
        Err(AuthFault::NoCookies)
    } else {
        Ok(joined(pairs, "; "@))
    }
}

/// Judges a login reply by its status, body and headers.
pub fn judge_login(status: u16, body: &Vec<u8>, headers: &HeaderMap) -> (r: Result<
    String,
    AuthError,
>)
    ensures
        same_token(r, login_verdict(status, body@, header_fields(*headers))),
{
    let text = chars_of(lossy_text(body).as_str());
    if status != 200 {
        return Err(AuthError::Rejected { status, excerpt: string_of(&trim_chars(&text)) });
    }
    if !contains_run(&text, &chars_of("Ok")) {
        return Err(AuthError::NotConfirmed { excerpt: string_of(&trim_chars(&text)) });
    }
    let pairs = extract_set_cookie_pairs(headers);
    if pairs.len() == 0 {
        return Err(AuthError::NoCookies);
    }
    let token = join_chars(&pairs, &chars_of("; "));
    Ok(string_of(&token))
}

/// What a login call submits, and the generation of the session store
/// that asked for it.
pub struct LoginRequest {
    /// The id of the backend.
    pub id: String,
    /// The generation of the session store when the login was asked for.
    pub epoch: u64,
    /// The address of the login call.
    pub url: String,
    /// The value of the `Origin` header.
    pub origin: String,
    /// The value of the `Referer` header.
    pub referer: String,
    /// The form field `username`.
    pub username: String,
    /// The form field `password`.
    pub password: String,
}

/// The mathematical content of a `LoginRequest`.
pub struct LoginSpec {
    pub id: Seq<char>,
    pub epoch: u64,
    pub url: Seq<char>,
    pub origin: Seq<char>,
    pub referer: Seq<char>,
    pub username: Seq<char>,
    pub password: Seq<char>,
}

impl View for LoginRequest {
    type V = LoginSpec;

    open spec fn view(&self) -> LoginSpec {
        LoginSpec {
            id: self.id@,
            epoch: self.epoch,
            url: self.url@,
            origin: self.origin@,
            referer: self.referer@,
            username: self.username@,
            password: self.password@,
        }
    }
}

/// What has to happen for a backend to have a session token.
pub enum LoginStep {
    /// Nothing: the token is at hand.
    Cached { token: String },
    /// A login call; its reply goes to `complete_login`.
    Login { request: LoginRequest },
    /// No token can be had.
    Fail { error: AuthError },
}

/// The mathematical content of a `LoginStep`.
pub enum StepSpec {
    Cached { token: Seq<char> },
    Login { request: LoginSpec },
    Fail { error: AuthFault },
}

impl View for LoginStep {
    type V = StepSpec;

    open spec fn view(&self) -> StepSpec {
        match self {
            LoginStep::Cached { token } => StepSpec::Cached { token: token@ },
            LoginStep::Login { request } => StepSpec::Login { request: request@ },
            LoginStep::Fail { error } => StepSpec::Fail { error: error@ },
        }
    }
}

/// The path of the login call.
pub open spec fn login_path() -> Seq<char> {
    "/api/v2/auth/login"@
}

/// The login call for `entry`, asked for in generation `epoch`.
pub open spec fn login_for(entry: EntrySpec, epoch: u64) -> StepSpec {
    match joined_url(entry.base, login_path()) {
        Ok(url) => StepSpec::Login {
            request: LoginSpec {
                id: entry.cfg.id,
                epoch,
                url,
                origin: entry.origin,
                referer: entry.origin + seq!['/'],
                username: entry.cfg.username,
                password: entry.cfg.password,
            },
        },
        Err(cause) => StepSpec::Fail { error: AuthFault::LoginUrl { cause } },
    }
}

/// The session of one backend.
pub struct QbitSession {
    /// The id of the backend.
    pub id: String,
    /// The token, once a login has succeeded.
    pub cookie: Option<String>,
}

/// The mathematical content of the session store: its generation, and for
/// each backend that has a cell the token in it.
pub struct SessionsSpec {
    pub epoch: u64,
    pub tokens: Map<Seq<char>, Option<Seq<char>>>,
}

impl SessionsSpec {
    /// What `ensure_cookie` answers for `entry` in this state.
    pub open spec fn step(self, entry: EntrySpec, force: bool) -> StepSpec {
        if entry.cfg.username.len() == 0 && entry.cfg.password.len() == 0 {
            StepSpec::Fail { error: AuthFault::MissingCredentials }
        } else if !force && self.tokens.contains_key(entry.cfg.id) && self.tokens[entry.cfg.id]
            is Some {
            StepSpec::Cached { token: self.tokens[entry.cfg.id]->0 }
        } else {
            login_for(entry, self.epoch)
        }
    }

    /// The state once the backend `id` has a cell.
    pub open spec fn with_cell(self, id: Seq<char>) -> SessionsSpec {
        if self.tokens.contains_key(id) {
            self
        } else {
            SessionsSpec { epoch: self.epoch, tokens: self.tokens.insert(id, None) }
        }
    }

    /// The state after `ensure_cookie` for `entry`: a backend with
    /// credentials has a cell.
    pub open spec fn after_step(self, entry: EntrySpec) -> SessionsSpec {
        if entry.cfg.username.len() == 0 && entry.cfg.password.len() == 0 {
            self
        } else {
            self.with_cell(entry.cfg.id)
        }
    }

    /// The state after the login asked for by `ticket` has been judged
    /// `verdict`: the token is kept where the login succeeded and was asked
    /// for in this generation.
    pub open spec fn after_login(
        self,
        ticket: LoginSpec,
        verdict: Result<Seq<char>, AuthFault>,
    ) -> SessionsSpec {
        match verdict {
            Ok(token) => if ticket.epoch == self.epoch {
                SessionsSpec {
                    epoch: self.epoch,
                    tokens: self.tokens.insert(ticket.id, Some(token)),
                }
            } else {
                self
            },
            Err(_) => self,
        }
    }

    /// The state after every cell has been discarded.
    pub open spec fn cleared(self) -> SessionsSpec {
        SessionsSpec {
            epoch: if self.epoch < u64::MAX {
                (self.epoch + 1) as u64
            } else {
                self.epoch
            },
            tokens: Map::empty(),
        }
    }
}

/// Whether a cell of `cells` belongs to the backend `id`.
pub open spec fn has_cell(cells: Seq<QbitSession>, id: Seq<char>) -> bool {
    exists|i: int| 0 <= i < cells.len() && #[trigger] cells[i].id@ == id
}

/// The position of the cell of the backend `id`.
pub open spec fn cell_of(cells: Seq<QbitSession>, id: Seq<char>) -> int {
    choose|i: int| 0 <= i < cells.len() && #[trigger] cells[i].id@ == id
}

/// No two cells belong to the same backend.
pub open spec fn distinct_cells(cells: Seq<QbitSession>) -> bool {
    forall|i: int, j: int|
        0 <= i < j < cells.len() ==> #[trigger] cells[i].id@ != #[trigger] cells[j].id@
}

/// The tokens that the cells hold, by backend id.
pub open spec fn tokens_of(cells: Seq<QbitSession>) -> Map<Seq<char>, Option<Seq<char>>> {
    Map::new(
        |id: Seq<char>| has_cell(cells, id),
        |id: Seq<char>| opt_text(cells[cell_of(cells, id)].cookie),
    )
}

/// With distinct cells, the cell at a position is the cell of its id.
pub proof fn lemma_cell_unique(cells: Seq<QbitSession>, k: int)
    requires
        distinct_cells(cells),
        0 <= k < cells.len(),
    ensures
        has_cell(cells, cells[k].id@),
        cell_of(cells, cells[k].id@) == k,
{
    let w = cell_of(cells, cells[k].id@);
    if w < k {
        assert(cells[w].id@ != cells[k].id@);
    } else if k < w {
        assert(cells[k].id@ != cells[w].id@);
    }
}

/// The session tokens of the backends, with the generation of the store.
pub struct QbitSessions {
    epoch: u64,
    cells: Vec<QbitSession>,
}

impl View for QbitSessions {
    type V = SessionsSpec;

    closed spec fn view(&self) -> SessionsSpec {
        SessionsSpec { epoch: self.epoch, tokens: tokens_of(self.cells@) }
    }
}

impl QbitSessions {
    #[verifier::type_invariant]
    closed spec fn inv(self) -> bool {
        distinct_cells(self.cells@)
    }

    /// A store without cells.
    pub fn new() -> (r: Self)
        ensures
            r@.epoch == 0,
            r@.tokens == Map::<Seq<char>, Option<Seq<char>>>::empty(),
    {
        let r = QbitSessions { epoch: 0, cells: Vec::new() };
        assert(r@.tokens =~= Map::<Seq<char>, Option<Seq<char>>>::empty());
        r
    }

    /// The position of the cell of `id`.
    fn find(&self, id: &String) -> (r: Option<usize>)
        ensures
            match r {
                Some(k) => k < self.cells.len() && self.cells@[k as int].id@ == id@,
                None => !has_cell(self.cells@, id@),
            },
    {
        let mut k: usize = 0;
        while k < self.cells.len()
            invariant
                k <= self.cells.len(),
                forall|j: int| 0 <= j < k ==> self.cells@[j].id@ != id@,
            decreases self.cells.len() - k,
        {
            if self.cells[k].id == *id {
                return Some(k);
            }
            k += 1;
        }
        None
    }

    /// Makes sure the backend `id` has a cell, and hands out the token in
    /// it.
    pub fn session(&mut self, id: &str) -> (cookie: Option<String>)
        ensures
            final(self)@ == old(self)@.with_cell(id@),
            final(self)@.tokens.contains_key(id@),
            opt_text(cookie) == final(self)@.tokens[id@],
    {
        proof {
            use_type_invariant(&*self);
        }
        let owned = string_of(&chars_of(id));
        match self.find(&owned) {
            Some(k) => {
                proof {
                    lemma_cell_unique(self.cells@, k as int);
                }
                match &self.cells[k].cookie {
                    Some(c) => Some(c.clone()),
                    None => None,
                }
            },
            None => {
                let ghost before = self.cells@;
                let mut cells: Vec<QbitSession> = Vec::new();
                std::mem::swap(&mut self.cells, &mut cells);
                cells.push(QbitSession { id: owned, cookie: None });
                proof {
                    lemma_pushed_cell(before, cells@);
                    lemma_cell_unique(cells@, cells@.len() - 1);
                }
                std::mem::swap(&mut self.cells, &mut cells);
                None
            },
        }
    }

    /// Discards every cell and starts a new generation.
    pub fn clear(&mut self)
        ensures
            final(self)@ == old(self)@.cleared(),
    {
        self.cells = Vec::new();
        if self.epoch < u64::MAX {
            self.epoch = self.epoch + 1;
        }
        assert(self@.tokens =~= Map::<Seq<char>, Option<Seq<char>>>::empty());
    }

    /// Decides what has to happen for `entry` to have a session token: a
    /// backend without credentials gets none; a token at hand is used
    /// unless `force` asks for a new one; else a login call is due.
    pub fn ensure_cookie(&mut self, entry: &ServerEntry, force: bool) -> (step: LoginStep)
        ensures
            step@ == old(self)@.step(entry@, force),
            final(self)@ == old(self)@.after_step(entry@),
    {
        if entry.cfg.username.as_str().is_empty() && entry.cfg.password.as_str().is_empty() {
            return LoginStep::Fail { error: AuthError::MissingCredentials };
        }
        let ghost before = self@;
        let cached = self.session(entry.cfg.id.as_str());
        assert(opt_text(cached) is Some <==> (before.tokens.contains_key(entry@.cfg.id)
            && before.tokens[entry@.cfg.id] is Some));
        match cached {
            Some(token) => {
                if !force {
                    return LoginStep::Cached { token };
                }
            },
            None => {},
        }
        match join_url(&entry.base, "/api/v2/auth/login") {
            Ok(url) => {
                let mut referer = chars_of(entry.origin.as_str());
                referer.push('/');
                assert(referer@ =~= entry@.origin + seq!['/']);
                LoginStep::Login {
                    request: LoginRequest {
                        id: entry.cfg.id.clone(),
                        epoch: self.epoch,
                        url,
                        origin: entry.origin.clone(),
                        referer: string_of(&referer),
                        username: entry.cfg.username.clone(),
                        password: entry.cfg.password.clone(),
                    },
                }
            },
            Err(cause) => LoginStep::Fail { error: AuthError::LoginUrl { cause } },
        }
    }

    /// Judges the reply to the login that `ticket` asked for, and keeps the
    /// token where the login succeeded and the store is still in the
    /// generation that asked. The token is handed out either way.
    pub fn complete_login(
        &mut self,
        ticket: &LoginRequest,
        status: u16,
        body: &Vec<u8>,
        headers: &HeaderMap,
    ) -> (r: Result<String, AuthError>)
        ensures
            same_token(r, login_verdict(status, body@, header_fields(*headers))),
            final(self)@ == old(self)@.after_login(
                ticket@,
                login_verdict(status, body@, header_fields(*headers)),
            ),
    {
        proof {
            use_type_invariant(&*self);
        }
        let verdict = judge_login(status, body, headers);
        match &verdict {
            Ok(token) => {
                if ticket.epoch == self.epoch {
                    let ghost before = self.cells@;
                    let found = self.find(&ticket.id);
                    let mut cells: Vec<QbitSession> = Vec::new();
                    std::mem::swap(&mut self.cells, &mut cells);
                    match found {
                        Some(k) => {
                            let cell = QbitSession {
                                id: ticket.id.clone(),
                                cookie: Some(token.clone()),
                            };
                            cells.set(k, cell);
                            proof {
                                lemma_set_cell(before, cells@, k as int);
                            }
                        },
                        None => {
                            cells.push(
                                QbitSession { id: ticket.id.clone(), cookie: Some(token.clone()) },
                            );
                            proof {
                                lemma_pushed_cell(before, cells@);
                            }
                        },
                    }
                    std::mem::swap(&mut self.cells, &mut cells);
                }
            },
            Err(_) => {},
        }
        verdict
    }

    /// The generation of the store: it changes whenever the cells are
    /// discarded.
    pub fn epoch(&self) -> (e: u64)
        ensures
            e == self@.epoch,
    {
        self.epoch
    }
}

/// Pushing a cell for a backend that has none keeps the cells distinct,
/// adds its token and leaves the others alone.
pub proof fn lemma_pushed_cell(before: Seq<QbitSession>, after: Seq<QbitSession>)
    requires
        after.len() == before.len() + 1,
        forall|i: int| 0 <= i < before.len() ==> after[i] == before[i],
        !has_cell(before, after.last().id@),
        distinct_cells(before),
    ensures
        distinct_cells(after),
        tokens_of(after) == tokens_of(before).insert(
            after.last().id@,
            opt_text(after.last().cookie),
        ),
{
    let last = after.len() - 1;
    assert forall|i: int, j: int| 0 <= i < j < after.len() implies #[trigger] after[i].id@
        != #[trigger] after[j].id@ by {
        if j < last {
            assert(before[i].id@ != before[j].id@);
        } else {
            assert(before[i].id@ == after[i].id@);
        }
    }
    let id = after.last().id@;
    let want = tokens_of(before).insert(id, opt_text(after.last().cookie));
    assert forall|k: Seq<char>| tokens_of(after).contains_key(k) <==> want.contains_key(k) by {
        if has_cell(after, k) {
            let i = cell_of(after, k);
            if i < before.len() {
                assert(before[i].id@ == k);
            }
        }
        if has_cell(before, k) {
            let i = cell_of(before, k);
            assert(after[i].id@ == k);
        }
        if k == id {
            assert(after[after.len() - 1].id@ == k);
        }
    }
    assert forall|k: Seq<char>| tokens_of(after).contains_key(k) implies tokens_of(after)[k]
        == want[k] by {
        let i = cell_of(after, k);
        lemma_cell_unique(after, i);
        if i < before.len() {
            assert(before[i].id@ == k);
            lemma_cell_unique(before, i);
        }
    }
    assert(tokens_of(after) =~= want);
}

/// Replacing the cell of a backend replaces its token and leaves the
/// others alone.
pub proof fn lemma_set_cell(before: Seq<QbitSession>, after: Seq<QbitSession>, k: int)
    requires
        0 <= k < before.len(),
        after.len() == before.len(),
        forall|i: int| 0 <= i < before.len() && i != k ==> after[i] == before[i],
        after[k].id@ == before[k].id@,
        distinct_cells(before),
    ensures
        distinct_cells(after),
        tokens_of(after) == tokens_of(before).insert(after[k].id@, opt_text(after[k].cookie)),
{
    assert forall|i: int, j: int| 0 <= i < j < after.len() implies #[trigger] after[i].id@
        != #[trigger] after[j].id@ by {
        assert(before[i].id@ != before[j].id@);
    }
    let want = tokens_of(before).insert(after[k].id@, opt_text(after[k].cookie));
    assert forall|id: Seq<char>| tokens_of(after).contains_key(id) <==> want.contains_key(id) by {
        if has_cell(after, id) {
            let i = cell_of(after, id);
            assert(before[i].id@ == id);
        }
        if has_cell(before, id) {
            let i = cell_of(before, id);
            assert(after[i].id@ == id);
        }
        if id == after[k].id@ {
            assert(after[k].id@ == id);
        }
    }
    assert forall|id: Seq<char>| tokens_of(after).contains_key(id) implies tokens_of(after)[id]
        == want[id] by {
        let i = cell_of(after, id);
        lemma_cell_unique(after, i);
        assert(before[i].id@ == id);
        lemma_cell_unique(before, i);
    }
    assert(tokens_of(after) =~= want);
}

/// Once the cells have been discarded no backend has a token at hand:
/// whatever was cached before, the next request for a token is never
/// answered from the cache, and for a backend with credentials whose
/// login address can be built it is a login call with those credentials.
pub proof fn law_cleared_store_logs_in(s: SessionsSpec, entry: EntrySpec, force: bool)
    ensures
        !(s.cleared().step(entry, force) is Cached),
        s.cleared().tokens.dom() == Set::<Seq<char>>::empty(),
        (entry.cfg.username.len() > 0 || entry.cfg.password.len() > 0) && joined_url(
            entry.base,
            login_path(),
        ) is Ok ==> {
            &&& s.cleared().step(entry, force) is Login
            &&& s.cleared().step(entry, force)->request.username == entry.cfg.username
            &&& s.cleared().step(entry, force)->request.password == entry.cfg.password
            &&& s.cleared().step(entry, force)->request.epoch == s.cleared().epoch
        },
{
    assert(s.cleared().tokens.dom() =~= Set::<Seq<char>>::empty());
}

/// A login that was asked for before the cells were discarded leaves the
/// new generation's store as it is, whatever the backend answered.
pub proof fn law_stale_login_not_kept(
    s: SessionsSpec,
    ticket: LoginSpec,
    verdict: Result<Seq<char>, AuthFault>,
)
    requires
        ticket.epoch != s.epoch,
    ensures
        s.after_login(ticket, verdict) == s,
{
}

/// A backend without credentials never gets a token and never a login
/// call; one with credentials and a token at hand logs in again exactly
/// when forced.
pub proof fn law_step_cases(s: SessionsSpec, entry: EntrySpec, force: bool)
    ensures
        entry.cfg.username.len() == 0 && entry.cfg.password.len() == 0 ==> s.step(entry, force)
            == (StepSpec::Fail { error: AuthFault::MissingCredentials }),
        force ==> !(s.step(entry, force) is Cached),
{
}

} // verus!
