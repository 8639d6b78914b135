//! Header scrubbing: hop-by-hop and credential headers are stripped before
//! a request or a response is relayed, and session cookies are read off a
//! login reply.

use vstd::prelude::*;
use vstd::string::StringSliceAdditionalSpecFns;
use axum::http::{HeaderMap, HeaderValue};
use axum::http::header::HeaderName;
use crate::address::opt_text;
use crate::text::{
    chars_of, string_of, trim_chars, trimmed, lower_chars, lowered, split_chars, split_on,
    views_of, position_of, find_first, slice_chars, push_chars,
};

verus! {

/// Declares `http::HeaderMap`, as `axum` hands it on, as an opaque type:
/// nothing is known of a value but what the wrappers below state.
#[verifier::external_type_specification]
#[verifier::external_body]
#[verifier::reject_recursive_types(T)]
pub struct ExHeaderMap<T>(HeaderMap<T>);

/// Declares `http::HeaderValue` as an opaque type.
#[verifier::external_type_specification]
#[verifier::external_body]
pub struct ExHeaderValue(HeaderValue);

/// What a header map holds: for each header name in it, lower-case, the
/// bytes of its values in the order they were added. A name in the domain
/// has at least one value.
pub uninterp spec fn header_fields(h: HeaderMap<HeaderValue>) -> Map<Seq<char>, Seq<Seq<u8>>>;

/// The characters of which a header name may consist: the `tchar` of the
/// HTTP grammar.
pub open spec fn is_token_char(c: char) -> bool {
    ||| 'a' <= c && c <= 'z'
    ||| 'A' <= c && c <= 'Z'
    ||| '0' <= c && c <= '9'
    ||| c == '!' || c == '#' || c == '$' || c == '%' || c == '&' || c == '\'' || c == '*'
    ||| c == '+' || c == '-' || c == '.' || c == '^' || c == '_' || c == '`' || c == '|'
    ||| c == '~'
}

/// The key under which a header map files `name`: its lower-case form,
/// where `name` is a non-empty token of at most 65535 characters; none
/// where it is no valid header name.
pub open spec fn header_key(name: Seq<char>) -> Option<Seq<char>> {
    if 0 < name.len() <= 65535 && forall|i: int|
        0 <= i < name.len() ==> is_token_char(#[trigger] name[i]) {
        Some(lowered(name))
    } else {
        None
    }
}

/// A byte that may stand in a header value read as text: visible ASCII,
/// space or tab.
pub open spec fn is_visible_ascii(b: u8) -> bool {
    (32 <= b && b < 127) || b == 9
}

/// A byte that may stand in a header value.
pub open spec fn is_value_byte(b: u8) -> bool {
    (32 <= b && b != 127) || b == 9
}

/// A header value read as text: its bytes as characters, where all of
/// them are visible ASCII; else nothing.
pub open spec fn value_text(bytes: Seq<u8>) -> Option<Seq<char>> {
    if forall|i: int| 0 <= i < bytes.len() ==> is_visible_ascii(#[trigger] bytes[i]) {
        Some(Seq::new(bytes.len(), |i: int| bytes[i] as char))
    } else {
        None
    }
}

/// The values filed under `name`, in order; none where the name is not
/// valid or not in the map.
pub open spec fn values_of(fields: Map<Seq<char>, Seq<Seq<u8>>>, name: Seq<char>) -> Seq<Seq<u8>> {
    match header_key(name) {
        Some(k) => if fields.contains_key(k) {
            fields[k]
        } else {
            Seq::empty()
        },
        None => Seq::empty(),
    }
}

/// The fields that are left when `name` is removed.
pub open spec fn without_name(fields: Map<Seq<char>, Seq<Seq<u8>>>, name: Seq<char>) -> Map<
    Seq<char>,
    Seq<Seq<u8>>,
> {
    match header_key(name) {
        Some(k) => fields.remove(k),
        None => fields,
    }
}

/// The fields once `bytes` is the only value filed under `name`.
pub open spec fn with_value(
    fields: Map<Seq<char>, Seq<Seq<u8>>>,
    name: Seq<char>,
    bytes: Seq<u8>,
) -> Map<Seq<char>, Seq<Seq<u8>>> {
    match header_key(name) {
        Some(k) => fields.insert(k, seq![bytes]),
        None => fields,
    }
}

/// Why a header could not be set.
#[derive(Clone, Copy, Debug, PartialEq, Eq, Structural)]
pub enum HeaderFault {
    /// The name is no valid header name.
    Name,
    /// The value holds a byte that no header value may hold.
    Value,
    /// The map refused to grow.
    Full,
}

/// The least number of names at which a header map may refuse to take
/// another: below it neither the growth of its index table nor the number
/// of its entries reaches the map's limit.
pub const HEADER_ROOM: usize = 6554;

/// Whether a map with these fields is sure to take another name: it holds
/// fewer than `HEADER_ROOM` names.
pub open spec fn has_room(fields: Map<Seq<char>, Seq<Seq<u8>>>) -> bool {
    fields.dom().finite() && fields.dom().len() < HEADER_ROOM
}

/// The fields of a map that holds nothing.
pub open spec fn no_fields() -> Map<Seq<char>, Seq<Seq<u8>>> {
    Map::empty()
}

/// Whether every byte of `bytes` may stand in a header value.
pub open spec fn is_value(bytes: Seq<u8>) -> bool {
    forall|i: int| 0 <= i < bytes.len() ==> is_value_byte(#[trigger] bytes[i])
}

/// Calls `HeaderMap::new`: the map is empty.
#[verifier::external_body]
pub(crate) fn empty_headers() -> (h: HeaderMap)
    ensures
        header_fields(h) == no_fields(),
{
    HeaderMap::new()
}

/// Calls `HeaderMap::get` with `name` and reads the value with
/// `HeaderValue::to_str`: the first value filed under the name, as text,
/// where there is one and all its bytes are visible ASCII.
#[verifier::external_body]
pub(crate) fn first_text(h: &HeaderMap, name: &str) -> (r: Option<String>)
    ensures
        opt_text(r) == (if values_of(header_fields(*h), name@).len() > 0 {
            value_text(values_of(header_fields(*h), name@)[0])
        } else {
            None
        }),
{
    h.get(name).and_then(|v| v.to_str().ok()).map(|v| v.to_string())
}

/// Calls `HeaderMap::get_all` with `name` and reads each value with
/// `HeaderValue::to_str`: one item for each value filed under the name, in
/// order, as text where all its bytes are visible ASCII.
#[verifier::external_body]
pub(crate) fn all_text(h: &HeaderMap, name: &str) -> (r: Vec<Option<String>>)
    ensures
        r.len() == values_of(header_fields(*h), name@).len(),
        forall|i: int|
            0 <= i < r.len() ==> opt_text(#[trigger] r[i]) == value_text(
                values_of(header_fields(*h), name@)[i],
            ),
{
    h.get_all(name).iter().map(|v| v.to_str().ok().map(|s| s.to_string())).collect()
}

/// Makes a name with `HeaderName::from_bytes` and calls
/// `HeaderMap::remove` with it: every value filed under the name is gone
/// and nothing else changes; an invalid name changes nothing.
#[verifier::external_body]
pub(crate) fn remove_header(h: &mut HeaderMap, name: &str)
    ensures
        header_fields(*final(h)) == without_name(header_fields(*old(h)), name@),
{
    if let Ok(n) = HeaderName::from_bytes(name.as_bytes()) {
        h.remove(n);
    }
}

/// Makes a name with `HeaderName::from_bytes` and a value with
/// `HeaderValue::from_str`, and calls `HeaderMap::try_insert`: where no
/// fault is reported the value is the only one filed under the name. A
/// fault changes nothing. A map refuses to grow only where its index table
/// would pass 32768 slots or it holds 32768 entries, which takes at least
/// `HEADER_ROOM` names: below that a valid name and value are always
/// taken. Above it the answer depends on how the map was built.
#[verifier::external_body]
pub(crate) fn set_header(h: &mut HeaderMap, name: &str, value: &str) -> (fault: Option<HeaderFault>)
    ensures
        fault == Some(HeaderFault::Name) <==> header_key(name@) is None,
        fault == Some(HeaderFault::Value) <==> (header_key(name@) is Some && !is_value(
            value.spec_bytes(),
        )),
        fault is None ==> header_fields(*final(h)) == with_value(
            header_fields(*old(h)),
            name@,
            value.spec_bytes(),
        ),
        fault is Some ==> header_fields(*final(h)) == header_fields(*old(h)),
        has_room(header_fields(*old(h))) ==> fault != Some(HeaderFault::Full),
{
    let Ok(n) = HeaderName::from_bytes(name.as_bytes()) else { return Some(HeaderFault::Name) };
    let Ok(v) = HeaderValue::from_str(value) else { return Some(HeaderFault::Value) };
    h.try_insert(n, v).err().map(|_| HeaderFault::Full)
}

/// The comma-separated members of the first `Connection` value, where it
/// reads as text.
pub open spec fn connection_tokens(fields: Map<Seq<char>, Seq<Seq<u8>>>) -> Seq<Seq<char>> {
    let values = values_of(fields, "connection"@);
    if values.len() > 0 && value_text(values[0]) is Some {
        split_on(value_text(values[0])->0, ',')
    } else {
        Seq::empty()
    }
}

/// Whether one of the first `n` of `tokens`, trimmed and in lower case, is
/// the header name filed under `key`.
pub open spec fn named_among(tokens: Seq<Seq<char>>, n: int, key: Seq<char>) -> bool {
    exists|i: int| 0 <= i < n && header_key(lowered(trimmed(#[trigger] tokens[i]))) == Some(key)
}

/// Whether `key` is one of the fixed hop-by-hop headers.
pub open spec fn is_hop_key(key: Seq<char>) -> bool {
    ||| header_key("connection"@) == Some(key)
    ||| header_key("proxy-connection"@) == Some(key)
    ||| header_key("keep-alive"@) == Some(key)
    ||| header_key("proxy-authenticate"@) == Some(key)
    ||| header_key("proxy-authorization"@) == Some(key)
    ||| header_key("te"@) == Some(key)
    ||| header_key("trailer"@) == Some(key)
    ||| header_key("trailers"@) == Some(key)
    ||| header_key("transfer-encoding"@) == Some(key)
    ||| header_key("upgrade"@) == Some(key)
}

/// Whether `key` is meaningful for one transport leg only: a fixed
/// hop-by-hop header, or one that the `Connection` header names.
pub open spec fn is_hop_by_hop(fields: Map<Seq<char>, Seq<Seq<u8>>>, key: Seq<char>) -> bool {
    is_hop_key(key) || named_among(
        connection_tokens(fields),
        connection_tokens(fields).len() as int,
        key,
    )
}

/// Whether `key` is a header that the gateway derives itself and never
/// passes on from the caller.
pub open spec fn is_caller_secret(key: Seq<char>) -> bool {
    ||| header_key("cookie"@) == Some(key)
    ||| header_key("authorization"@) == Some(key)
    ||| header_key("host"@) == Some(key)
}

/// Whether `key` is the backend's own cookie header.
pub open spec fn is_backend_cookie(key: Seq<char>) -> bool {
    header_key("set-cookie"@) == Some(key)
}

/// The fields without the hop-by-hop headers.
pub open spec fn without_hop(fields: Map<Seq<char>, Seq<Seq<u8>>>) -> Map<
    Seq<char>,
    Seq<Seq<u8>>,
> {
    fields.remove_keys(Set::new(|k: Seq<char>| is_hop_by_hop(fields, k)))
}

/// The fields of an inbound request that are passed on.
pub open spec fn request_fields(fields: Map<Seq<char>, Seq<Seq<u8>>>) -> Map<
    Seq<char>,
    Seq<Seq<u8>>,
> {
    fields.remove_keys(Set::new(|k: Seq<char>| is_hop_by_hop(fields, k) || is_caller_secret(k)))
}

/// The fields of an upstream response that are passed on.
pub open spec fn response_fields(fields: Map<Seq<char>, Seq<Seq<u8>>>) -> Map<
    Seq<char>,
    Seq<Seq<u8>>,
> {
    fields.remove_keys(Set::new(|k: Seq<char>| is_hop_by_hop(fields, k) || is_backend_cookie(k)))
}

/// Removes the headers that the tokens name.
fn remove_named(headers: &mut HeaderMap, tokens: &Vec<Vec<char>>)
    ensures
        header_fields(*final(headers)) == header_fields(*old(headers)).remove_keys(
            Set::new(
                |k: Seq<char>| named_among(views_of(tokens@), tokens.len() as int, k),
            ),
        ),
{
    let ghost before = header_fields(*headers);
    let ghost names = views_of(tokens@);
    let mut i: usize = 0;
    assert(header_fields(*headers) =~= before.remove_keys(
        Set::new(|k: Seq<char>| named_among(names, 0, k)),
    ));
    while i < tokens.len()
        invariant
            i <= tokens.len(),
            names == views_of(tokens@),
            before == header_fields(*old(headers)),
            header_fields(*headers) == before.remove_keys(
                Set::new(|k: Seq<char>| named_among(names, i as int, k)),
            ),
        decreases tokens.len() - i,
    {
        let name = lower_chars(&trim_chars(&tokens[i]));
        let text = string_of(&name);
        let ghost prev = header_fields(*headers);
        remove_header(headers, text.as_str());
        proof {
            assert(text@ == lowered(trimmed(names[i as int])));
            let now = header_fields(*headers);
            let next = before.remove_keys(
                Set::new(|k: Seq<char>| named_among(names, i + 1, k)),
            );
            assert forall|k: Seq<char>|
                named_among(names, i + 1, k) <==> (named_among(names, i as int, k) || header_key(
                    text@,
                ) == Some(k)) by {
                if named_among(names, i + 1, k) {
                    let j = choose|j: int|
                        0 <= j < i + 1 && header_key(lowered(trimmed(#[trigger] names[j])))
                            == Some(k);
                    if j < i {
                        assert(named_among(names, i as int, k));
                    }
                }
                if named_among(names, i as int, k) {
                    let j = choose|j: int|
                        0 <= j < i && header_key(lowered(trimmed(#[trigger] names[j]))) == Some(
                            k,
                        );
                    assert(0 <= j < i + 1);
                }
                if header_key(text@) == Some(k) {
                    assert(header_key(lowered(trimmed(names[i as int]))) == Some(k));
                }
            }
            assert(now =~= next);
        }
        i += 1;
    }
}

/// Strips the hop-by-hop headers: every header that the `Connection`
/// header names, and the fixed set.
pub fn remove_hop_headers(headers: &mut HeaderMap)
    ensures
        header_fields(*final(headers)) == without_hop(header_fields(*old(headers))),
{
    let ghost before = header_fields(*headers);
    let conn = first_text(headers, "connection");
    match conn {
        Some(text) => {
            let tokens = split_chars(&chars_of(text.as_str()), ',');
            remove_named(headers, &tokens);
            assert(views_of(tokens@) == connection_tokens(before));
        },
        None => {
            assert(connection_tokens(before) =~= Seq::<Seq<char>>::empty());
            assert(header_fields(*headers) =~= before.remove_keys(
                Set::new(|k: Seq<char>| named_among(connection_tokens(before), 0, k)),
            ));
        },
    }
    let ghost named = header_fields(*headers);
    remove_header(headers, "connection");
    remove_header(headers, "proxy-connection");
    remove_header(headers, "keep-alive");
    remove_header(headers, "proxy-authenticate");
    remove_header(headers, "proxy-authorization");
    remove_header(headers, "te");
    remove_header(headers, "trailer");
    remove_header(headers, "trailers");
    remove_header(headers, "transfer-encoding");
    remove_header(headers, "upgrade");
    assert(header_fields(*headers) =~= named.remove_keys(Set::new(|k: Seq<char>| is_hop_key(k))));
    assert(header_fields(*headers) =~= without_hop(before));
}

/// Strips from an inbound request what must not reach the backend: the
/// hop-by-hop headers, and `cookie`, `authorization` and `host`.
pub fn sanitize_request_headers(headers: HeaderMap) -> (r: HeaderMap)
    ensures
        header_fields(r) == request_fields(header_fields(headers)),
{
    let mut out = headers;
    remove_hop_headers(&mut out);
    remove_header(&mut out, "cookie");
    remove_header(&mut out, "authorization");
    remove_header(&mut out, "host");
    assert(header_fields(out) =~= request_fields(header_fields(headers)));
    out
}

/// Strips from an upstream response what must not reach the caller: the
/// hop-by-hop headers and the backend's own `set-cookie`.
pub fn sanitize_response_headers(headers: HeaderMap) -> (r: HeaderMap)
    ensures
        header_fields(r) == response_fields(header_fields(headers)),
{
    let mut out = headers;
    remove_hop_headers(&mut out);
    remove_header(&mut out, "set-cookie");
    assert(header_fields(out) =~= response_fields(header_fields(headers)));
    out
}

/// The `name=value` pair at the head of a `Set-Cookie` text: what stands
/// before the first `;`, split at its first `=`, each side trimmed. None
/// where the name is empty.
pub open spec fn cookie_pair(raw: Seq<char>) -> Option<Seq<char>> {
    let pair = trimmed(raw.take(find_first(raw, ';')));
    let at = find_first(pair, '=');
    let name = trimmed(pair.take(at));
    let value = if at < pair.len() {
        trimmed(pair.skip(at + 1))
    } else {
        Seq::<char>::empty()
    };
    if name.len() == 0 {
        None
    } else {
        Some(name + seq!['='] + value)
    }
}

/// The pairs of those `Set-Cookie` values that read as text and have one,
/// in order.
pub open spec fn cookie_pairs(values: Seq<Seq<u8>>) -> Seq<Seq<char>>
    decreases values.len(),
{
    if values.len() == 0 {
        Seq::empty()
    } else {
        let before = cookie_pairs(values.drop_last());
        match value_text(values.last()) {
            Some(raw) => match cookie_pair(raw) {
                Some(p) => before.push(p),
                None => before,
            },
            None => before,
        }
    }
}

/// The `name=value` pair at the head of a `Set-Cookie` text.
fn cookie_pair_of(raw: &str) -> (r: Option<Vec<char>>)
    ensures
        match r {
            Some(p) => cookie_pair(raw@) == Some(p@),
            None => cookie_pair(raw@) is None,
        },
{
    let rv = chars_of(raw);
    let semi = position_of(&rv, ';');
    let first = slice_chars(&rv, 0, semi);
    assert(first@ =~= raw@.take(semi as int));
    let pair = trim_chars(&first);
    let at = position_of(&pair, '=');
    let head = slice_chars(&pair, 0, at);
    assert(head@ =~= pair@.take(at as int));
    let name = trim_chars(&head);
    let value = if at < pair.len() {
        let tail = slice_chars(&pair, at + 1, pair.len());
        assert(tail@ =~= pair@.skip(at + 1));
        trim_chars(&tail)
    } else {
        Vec::new()
    };
    if name.len() == 0 {
        return None;
    }
    let mut out: Vec<char> = Vec::new();
    push_chars(&mut out, &name);
    out.push('=');
    push_chars(&mut out, &value);
    assert(out@ =~= name@ + seq!['='] + value@);
    Some(out)
}

/// The session cookies that a reply sets: of each `Set-Cookie` header the
/// `name=value` pair before the first `;`.
pub fn extract_set_cookie_pairs(headers: &HeaderMap) -> (r: Vec<Vec<char>>)
    ensures
        views_of(r@) == cookie_pairs(values_of(header_fields(*headers), "set-cookie"@)),
{
    let ghost values = values_of(header_fields(*headers), "set-cookie"@);
    let texts = all_text(headers, "set-cookie");
    let mut out: Vec<Vec<char>> = Vec::new();
    let mut i: usize = 0;
    assert(views_of(out@) =~= cookie_pairs(values.take(0)));
    while i < texts.len()
        invariant
            i <= texts.len() == values.len(),
            forall|k: int|
                0 <= k < texts.len() ==> opt_text(#[trigger] texts[k]) == value_text(values[k]),
            views_of(out@) == cookie_pairs(values.take(i as int)),
        decreases texts.len() - i,
    {
        let ghost done = values.take(i as int);
        let ghost more = values.take(i + 1);
        assert(more.drop_last() =~= done);
        assert(more.last() == values[i as int]);
        assert(opt_text(texts[i as int]) == value_text(values[i as int]));
        match &texts[i] {
            Some(raw) => {
                match cookie_pair_of(raw.as_str()) {
                    Some(p) => {
                        let ghost prev = views_of(out@);
                        out.push(p);
                        assert(views_of(out@) =~= prev.push(p@));
                    },
                    None => {},
                }
            },
            None => {},
        }
        i += 1;
    }
    assert(values.take(values.len() as int) =~= values);
    out
}

/// A name of lower-case letters, digits and hyphens is filed under
/// itself.
pub proof fn lemma_plain_name_is_key(name: Seq<char>)
    requires
        0 < name.len() <= 65535,
        forall|i: int|
            0 <= i < name.len() ==> (('a' <= #[trigger] name[i] && name[i] <= 'z') || ('0'
                <= name[i] && name[i] <= '9') || name[i] == '-'),
    ensures
        header_key(name) == Some(name),
{
    assert(lowered(name) =~= name);
}

/// The name of the header that sets a cookie is filed under itself.
pub proof fn lemma_set_cookie_name()
    ensures
        header_key("set-cookie"@) == Some("set-cookie"@),
{
    reveal_strlit("set-cookie");
    lemma_plain_name_is_key("set-cookie"@);
}

/// No hop-by-hop header and none of `cookie`, `authorization` and `host`
/// is passed on with a request, and every other header is passed on
/// unchanged.
pub proof fn law_request_fields(fields: Map<Seq<char>, Seq<Seq<u8>>>, key: Seq<char>)
    ensures
        is_hop_by_hop(fields, key) || is_caller_secret(key) ==> !request_fields(
            fields,
        ).contains_key(key),
        !is_hop_by_hop(fields, key) && !is_caller_secret(key) && fields.contains_key(key)
            ==> request_fields(fields).contains_key(key) && request_fields(fields)[key]
            == fields[key],
{
}

/// No hop-by-hop header and no `set-cookie` is passed on with a response,
/// and every other header is passed on unchanged.
pub proof fn law_response_fields(fields: Map<Seq<char>, Seq<Seq<u8>>>, key: Seq<char>)
    ensures
        is_hop_by_hop(fields, key) || is_backend_cookie(key) ==> !response_fields(
            fields,
        ).contains_key(key),
        !is_hop_by_hop(fields, key) && !is_backend_cookie(key) && fields.contains_key(key)
            ==> response_fields(fields).contains_key(key) && response_fields(fields)[key]
            == fields[key],
{
}

} // verus!
