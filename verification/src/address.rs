//! Backend addresses: what a base URL parses into, the origin derived from
//! it, slash-aware path joining and `host:port` formatting.

use vstd::prelude::*;
use vstd::string::StringSliceAdditionalSpecFns;
use crate::text::{chars_of, string_of, push_chars, slice_chars, has_char, decimal, decimal_chars};

verus! {

/// The parts of a parsed absolute URL that the gateway reads.
pub struct BaseUrl {
    /// The URL as the parser writes it back.
    pub href: String,
    /// The scheme, without the colon.
    pub scheme: String,
    /// The host as it stands in the URL, where there is one.
    pub host: Option<String>,
    /// The port, where the URL gives one that is not the scheme's default.
    pub port: Option<u16>,
    /// The port, or the scheme's conventional port where that is known.
    pub known_port: Option<u16>,
    /// The path.
    pub path: String,
}

/// The mathematical content of a `BaseUrl`.
pub struct UrlParts {
    pub href: Seq<char>,
    pub scheme: Seq<char>,
    pub host: Option<Seq<char>>,
    pub port: Option<u16>,
    pub known_port: Option<u16>,
    pub path: Seq<char>,
}

/// The view of an optional string.
pub open spec fn opt_text(s: Option<String>) -> Option<Seq<char>> {
    match s {
        Some(t) => Some(t@),
        None => None,
    }
}

impl View for BaseUrl {
    type V = UrlParts;

    open spec fn view(&self) -> UrlParts {
        UrlParts {
            href: self.href@,
            scheme: self.scheme@,
            host: opt_text(self.host),
            port: self.port,
            known_port: self.known_port,
            path: self.path@,
        }
    }
}

impl Clone for BaseUrl {
    fn clone(&self) -> (r: Self)
        ensures
            r@ == self@,
    {
        let host = match &self.host {
            Some(h) => Some(h.clone()),
            None => None,
        };
        BaseUrl {
            href: self.href.clone(),
            scheme: self.scheme.clone(),
            host,
            port: self.port,
            known_port: self.known_port,
            path: self.path.clone(),
        }
    }
}

/// What `url::Url::parse` makes of `text`: the parts of the URL, or nothing
/// where it reports an error.
pub uninterp spec fn url_parse(text: Seq<char>) -> Option<UrlParts>;

/// What `url::Url::set_path` makes of the URL written `href` when given
/// `path`, written back as text; nothing where `href` does not parse.
pub uninterp spec fn url_with_path(href: Seq<char>, path: Seq<char>) -> Option<Seq<char>>;

/// What `url::Url::set_query` makes of the URL written `href` when given
/// `query`, written back as text; nothing where `href` does not parse.
pub uninterp spec fn url_with_query(href: Seq<char>, query: Option<Seq<char>>) -> Option<
    Seq<char>,
>;

/// The longest text, in bytes, that the URL rewriting calls are handed.
pub const MAX_URL_BYTES: usize = 0x0100_0000;

/// Calls `url::Url::parse` and reads the parts off the result with
/// `as_str`, `scheme`, `host_str`, `port`, `port_or_known_default` and
/// `path`. The contract only names the outcome: it depends on `text` alone.
#[verifier::external_body]
pub(crate) fn parse_url(text: &str) -> (r: Option<BaseUrl>)
    ensures
        match r {
            Some(u) => url_parse(text@) == Some(u@),
            None => url_parse(text@) is None,
        },
{
    match url::Url::parse(text) {
        Ok(u) => Some(BaseUrl {
            href: u.as_str().to_string(),
            scheme: u.scheme().to_string(),
            host: u.host_str().map(|h| h.to_string()),
            port: u.port(),
            known_port: u.port_or_known_default(),
            path: u.path().to_string(),
        }),
        Err(_) => None,
    }
}

/// Parses `href` and calls `url::Url::set_path` with `path`. The contract
/// only names the outcome. The bound keeps the resulting text, which
/// percent-encoding can triple, within the parser's 32-bit offsets.
#[verifier::external_body]
pub(crate) fn replace_path(href: &str, path: &str) -> (r: Option<String>)
    requires
        href.spec_bytes().len() <= MAX_URL_BYTES,
        path.spec_bytes().len() <= MAX_URL_BYTES,
    ensures
        opt_text(r) == url_with_path(href@, path@),
{
    let mut u = url::Url::parse(href).ok()?;
    u.set_path(path);
    Some(u.as_str().to_string())
}

/// Parses `href` and calls `url::Url::set_query` with `query`. The contract
/// only names the outcome. The bound keeps the resulting text within the
/// parser's 32-bit offsets.
#[verifier::external_body]
pub(crate) fn replace_query(href: &str, query: Option<&str>) -> (r: Option<String>)
    requires
        href.spec_bytes().len() <= 4 * MAX_URL_BYTES,
        query matches Some(q) ==> q.spec_bytes().len() <= MAX_URL_BYTES,
    ensures
        opt_text(r) == url_with_query(href@, opt_str(query)),
{
    let mut u = url::Url::parse(href).ok()?;
    u.set_query(query);
    Some(u.as_str().to_string())
}

/// The view of an optional string slice.
pub open spec fn opt_str(s: Option<&str>) -> Option<Seq<char>> {
    match s {
        Some(t) => Some(t@),
        None => None,
    }
}

/// `a` and `b` joined with exactly one slash at the boundary where either
/// has one: one of two boundary slashes is dropped, a missing one is put
/// in, and otherwise the two are written one after the other.
pub open spec fn joined_path(a: Seq<char>, b: Seq<char>) -> Seq<char> {
    let a_slash = a.len() > 0 && a.last() == '/';
    let b_slash = b.len() > 0 && b[0] == '/';
    if a_slash && b_slash {
        a + b.drop_first()
    } else if !a_slash && !b_slash {
        a + seq!['/'] + b
    } else {
        a + b
    }
}

/// Joins a base path and a request path, slash-aware.
pub fn join_path(a: &str, b: &str) -> (r: String)
    ensures
        r@ == joined_path(a@, b@),
{
    let av = chars_of(a);
    let bv = chars_of(b);
    let a_slash = av.len() > 0 && av[av.len() - 1] == '/';
    let b_slash = bv.len() > 0 && bv[0] == '/';
    let mut out: Vec<char> = Vec::new();
    push_chars(&mut out, &av);
    if a_slash && b_slash {
        let rest = slice_chars(&bv, 1, bv.len());
        push_chars(&mut out, &rest);
        assert(out@ =~= a@ + b@.drop_first());
    } else if !a_slash && !b_slash {
        out.push('/');
        push_chars(&mut out, &bv);
        assert(out@ =~= a@ + seq!['/'] + b@);
    } else {
        push_chars(&mut out, &bv);
        assert(out@ =~= a@ + b@);
    }
    string_of(&out)
}

/// `b` without a slash at its head.
pub open spec fn without_head_slash(b: Seq<char>) -> Seq<char> {
    if b.len() > 0 && b[0] == '/' {
        b.drop_first()
    } else {
        b
    }
}

/// A join is its first part, one slash, and its second part without a
/// slash at its head: where the first part ends with a slash that one is
/// the boundary, else one stands right after it.
pub proof fn law_join_has_one_boundary_slash(a: Seq<char>, b: Seq<char>)
    ensures
        joined_path(a, b).len() > 0,
        joined_path(a, b).take(a.len() as int) == a,
        a.len() > 0 && a.last() == '/' ==> joined_path(a, b) == a + without_head_slash(b),
        !(a.len() > 0 && a.last() == '/') ==> joined_path(a, b) == a + seq!['/']
            + without_head_slash(b),
{
    let j = joined_path(a, b);
    let a_slash = a.len() > 0 && a.last() == '/';
    let b_slash = b.len() > 0 && b[0] == '/';
    if !a_slash && b_slash {
        assert(b =~= seq!['/'] + b.drop_first());
        assert(j =~= a + seq!['/'] + without_head_slash(b));
    }
    assert(j.take(a.len() as int) =~= a);
}

/// The path of a base URL as a prefix: a lone slash counts as none.
pub open spec fn base_prefix(path: Seq<char>) -> Seq<char> {
    if path == seq!['/'] {
        Seq::<char>::empty()
    } else {
        path
    }
}

/// `host`, in square brackets where it holds a colon and has none yet: an
/// IPv6 literal.
pub open spec fn host_only(host: Seq<char>) -> Seq<char> {
    if host.contains(':') && !(host.len() > 0 && host[0] == '[') {
        seq!['['] + host + seq![']']
    } else {
        host
    }
}

/// `host:port`, the host bracketed where it is an IPv6 literal.
pub open spec fn host_port(host: Seq<char>, port: u16) -> Seq<char> {
    host_only(host) + seq![':'] + decimal(port as nat)
}

/// `scheme://host[:port]`, the host bracketed where it is an IPv6 literal.
pub open spec fn origin_of(scheme: Seq<char>, host: Seq<char>, port: Option<u16>) -> Seq<char> {
    let head = scheme + seq![':', '/', '/'] + host_only(host);
    match port {
        Some(p) => head + seq![':'] + decimal(p as nat),
        None => head,
    }
}

/// The characters of `host`, bracketed where it is an IPv6 literal.
fn host_only_chars(host: &str) -> (r: Vec<char>)
    ensures
        r@ == host_only(host@),
{
    let hv = chars_of(host);
    if has_char(&hv, ':') && !(hv.len() > 0 && hv[0] == '[') {
        let mut out: Vec<char> = Vec::new();
        out.push('[');
        push_chars(&mut out, &hv);
        out.push(']');
        assert(out@ =~= seq!['['] + host@ + seq![']']);
        out
    } else {
        hv
    }
}

/// Formats a host for use in an origin.
pub fn format_host_only(host: &str) -> (r: String)
    ensures
        r@ == host_only(host@),
{
    let out = host_only_chars(host);
    string_of(&out)
}

/// Formats a host and port as a dial address.
pub fn format_host_port(host: &str, port: u16) -> (r: String)
    ensures
        r@ == host_port(host@, port),
{
    let mut out = host_only_chars(host);
    out.push(':');
    let digits = decimal_chars(port);
    push_chars(&mut out, &digits);
    assert(out@ =~= host_only(host@) + seq![':'] + decimal(port as nat));
    string_of(&out)
}

/// Formats the origin of a backend.
pub fn format_origin(scheme: &str, host: &str, port: Option<u16>) -> (r: String)
    ensures
        r@ == origin_of(scheme@, host@, port),
{
    let mut out = chars_of(scheme);
    out.push(':');
    out.push('/');
    out.push('/');
    let hv = host_only_chars(host);
    push_chars(&mut out, &hv);
    assert(out@ =~= scheme@ + seq![':', '/', '/'] + host_only(host@));
    match port {
        Some(p) => {
            let ghost head = out@;
            out.push(':');
            let digits = decimal_chars(p);
            push_chars(&mut out, &digits);
            assert(out@ =~= head + seq![':'] + decimal(p as nat));
        },
        None => {},
    }
    string_of(&out)
}

/// The number of bytes that `text` takes in UTF-8.
pub open spec fn byte_len(text: Seq<char>) -> nat {
    vstd::utf8::encode_utf8(text).len()
}

/// Why a URL could not be built.
#[derive(Clone, Copy, Debug, PartialEq, Eq, Structural)]
pub enum UrlError {
    /// A part is longer than `MAX_URL_BYTES`.
    TooLong,
    /// The parser refused the base URL.
    Unparsable,
}

/// The URL of `suffix` below a base URL: the base with its path replaced
/// by the join of its own path and `suffix`.
pub open spec fn joined_url(base: UrlParts, suffix: Seq<char>) -> Result<Seq<char>, UrlError> {
    let path = joined_path(base_prefix(base.path), suffix);
    if byte_len(base.href) > MAX_URL_BYTES || byte_len(path) > MAX_URL_BYTES {
        Err(UrlError::TooLong)
    } else {
        match url_with_path(base.href, path) {
            Some(u) => Ok(u),
            None => Err(UrlError::Unparsable),
        }
    }
}

/// The URL that a request for `path` with `query` is forwarded to: the
/// base with its path replaced by the join of its own path and `path`, and
/// its query by `query`.
pub open spec fn target_url(base: UrlParts, path: Seq<char>, query: Option<Seq<char>>) -> Result<
    Seq<char>,
    UrlError,
> {
    match joined_url(base, path) {
        Err(e) => Err(e),
        Ok(u) => if byte_len(u) > 4 * MAX_URL_BYTES || (query is Some && byte_len(query->0)
            > MAX_URL_BYTES) {
            Err(UrlError::TooLong)
        } else {
            match url_with_query(u, query) {
                Some(t) => Ok(t),
                None => Err(UrlError::Unparsable),
            }
        },
    }
}

/// Whether a result holds the text `expected` holds, or the same error.
pub open spec fn same_url(
    r: Result<String, UrlError>,
    expected: Result<Seq<char>, UrlError>,
) -> bool {
    match r {
        Ok(u) => expected == Ok::<Seq<char>, UrlError>(u@),
        Err(e) => expected == Err::<Seq<char>, UrlError>(e),
    }
}

/// The number of bytes that `s` takes.
pub fn byte_count(s: &str) -> (n: usize)
    ensures
        n == byte_len(s@),
{
    s.as_bytes().len()
}

/// The path of `base` as a prefix for joining.
fn prefix_of(base: &BaseUrl) -> (r: String)
    ensures
        r@ == base_prefix(base@.path),
{
    let pv = chars_of(base.path.as_str());
    if pv.len() == 1 && pv[0] == '/' {
        assert(pv@ =~= seq!['/']);
        String::new()
    } else {
        base.path.clone()
    }
}

/// The URL of `suffix` below `base`.
pub fn join_url(base: &BaseUrl, suffix: &str) -> (r: Result<String, UrlError>)
    ensures
        same_url(r, joined_url(base@, suffix@)),
{
    let prefix = prefix_of(base);
    let path = join_path(prefix.as_str(), suffix);
    if byte_count(base.href.as_str()) > MAX_URL_BYTES || byte_count(path.as_str())
        > MAX_URL_BYTES {
        return Err(UrlError::TooLong);
    }
    match replace_path(base.href.as_str(), path.as_str()) {
        Some(u) => Ok(u),
        None => Err(UrlError::Unparsable),
    }
}

/// The URL that a request for `path` with `query` is forwarded to.
pub fn build_target_url(base: &BaseUrl, path: &str, query: Option<&str>) -> (r: Result<
    String,
    UrlError,
>)
    ensures
        same_url(r, target_url(base@, path@, opt_str(query))),
{
    let joined = match join_url(base, path) {
        Ok(u) => u,
        Err(e) => {
            return Err(e);
        },
    };
    if byte_count(joined.as_str()) > 4 * MAX_URL_BYTES {
        return Err(UrlError::TooLong);
    }
    match query {
        Some(q) => {
            if byte_count(q) > MAX_URL_BYTES {
                return Err(UrlError::TooLong);
            }
        },
        None => {},
    }
    match replace_query(joined.as_str(), query) {
        Some(t) => Ok(t),
        None => Err(UrlError::Unparsable),
    }
}

} // verus!
