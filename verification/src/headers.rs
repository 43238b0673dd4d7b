//! What the proxy reads from and leaves out of HTTP headers.

use axum::http::{HeaderMap, HeaderValue};
use vstd::prelude::*;

use crate::request::text_of;
use crate::text::{
    before_first, begins_with, law_a_prefix_and_the_rest_make_the_text, law_before_the_first,
    law_trimming_takes_blanks_off_the_ends, strip_prefix, text_before_first, trim_blanks, trimmed,
};

verus! {

/// The multimap of header names to values of the `http` crate.
#[verifier::external_type_specification]
#[verifier::external_body]
#[verifier::reject_recursive_types(T)]
pub struct ExHeaderMap<T>(HeaderMap<T>);

/// A header's value, of the `http` crate.
#[verifier::external_type_specification]
#[verifier::external_body]
pub struct ExHeaderValue(HeaderValue);

/// The values of each header that is found in a map, in the order in which they were added, by
/// the name in lower case that it is found under.
pub uninterp spec fn header_values(headers: HeaderMap<HeaderValue>) -> Map<Seq<char>, Seq<Seq<u8>>>;

/// The bytes of a header's value.
pub uninterp spec fn value_bytes(value: HeaderValue) -> Seq<u8>;

/// A character in lower case, as far as it is an ASCII letter.
pub open spec fn lower_char(c: char) -> char {
    if 'A' <= c <= 'Z' {
        (c as u32 + 32) as char
    } else {
        c
    }
}

/// A header's name in lower case.
pub open spec fn lower(name: Seq<char>) -> Seq<char> {
    name.map_values(|c: char| lower_char(c))
}

/// Every byte is a visible ASCII character, a space or a tab.
pub open spec fn is_header_text(bytes: Seq<u8>) -> bool {
    forall|i: int| 0 <= i < bytes.len() ==> (32 <= #[trigger] bytes[i] < 127 || bytes[i] == 9)
}

/// `HeaderMap::get`, with a string for the name: the first value of the header, whose name is
/// compared without regard to case; nothing where there is no such header, or where the string
/// is not a header's name.
#[verifier::external_body]
fn header_get<'a>(headers: &'a HeaderMap<HeaderValue>, name: &str) -> (r: Option<&'a HeaderValue>)
    ensures
        r is Some == header_values(*headers).contains_key(lower(name@)),
        r is Some ==> header_values(*headers)[lower(name@)].len() > 0 && value_bytes(*r->0)
            == header_values(*headers)[lower(name@)][0],
{
    headers.get(name)
}

/// `HeaderValue::to_str`: the value as text, where every byte is visible ASCII, a space or a
/// tab; else nothing.
#[verifier::external_body]
fn header_to_str<'a>(value: &'a HeaderValue) -> (r: Option<&'a str>)
    ensures
        r is Some == is_header_text(value_bytes(*value)),
        r is Some ==> r->0@ == value_bytes(*value).map_values(|b: u8| b as char),
{
    value.to_str().ok()
}

/// `HeaderMap::remove`, with a string for the name: all values of that header leave the map,
/// and nothing else does. It is taken for these names alone: a long name with characters that no
/// header's name has can be found under several names at once.
#[verifier::external_body]
fn header_remove(headers: &mut HeaderMap<HeaderValue>, name: &str)
    requires
        name@ == "host"@ || name@ == "authorization"@ || name@ == "content-length"@ || name@
            == "transfer-encoding"@,
    ensures
        header_values(*final(headers)) == header_values(*old(headers)).remove(lower(name@)),
{
    headers.remove(name);
}

/// The text of a header's first value; nothing where there is none, or it is no text.
pub open spec fn header_text(headers: HeaderMap<HeaderValue>, name: Seq<char>) -> Option<
    Seq<char>,
> {
    if header_values(headers).contains_key(lower(name)) && is_header_text(
        header_values(headers)[lower(name)][0],
    ) {
        Some(header_values(headers)[lower(name)][0].map_values(|b: u8| b as char))
    } else {
        None
    }
}

/// The text of a header's first value.
pub fn header_str<'a>(headers: &'a HeaderMap<HeaderValue>, name: &str) -> (r: Option<&'a str>)
    ensures
        r is Some == header_text(*headers, name@) is Some,
        r is Some ==> r->0@ == header_text(*headers, name@)->0,
{
    match header_get(headers, name) {
        Some(value) => header_to_str(value),
        None => None,
    }
}

/// What a header says of the client's address: its text up to the first comma, without blanks
/// around it.
pub open spec fn stated_address(
    headers: HeaderMap<HeaderValue>,
    ip_header: Option<Seq<char>>,
) -> Option<Seq<char>> {
    match ip_header {
        Some(name) => match header_text(headers, name) {
            Some(text) => Some(trimmed(before_first(text, ','))),
            None => None,
        },
        None => None,
    }
}

/// The address that the header named `ip_header` states: of several, separated by commas, the
/// first, which is the client's own. A header's text holds no white space but spaces and tabs.
pub fn stated_client_ip<'a>(
    headers: &'a HeaderMap<HeaderValue>,
    ip_header: &Option<String>,
) -> (r: Option<&'a str>)
    ensures
        r is Some == stated_address(*headers, text_of(*ip_header)) is Some,
        r is Some ==> r->0@ == stated_address(*headers, text_of(*ip_header))->0,
{
    let name = match ip_header {
        Some(name) => name,
        None => return None,
    };
    match header_str(headers, name.as_str()) {
        Some(text) => Some(trim_blanks(text_before_first(text, ','))),
        None => None,
    }
}

/// The client's address: the stated one, where it is an IP address, else that of the peer.
pub fn extract_client_ip(stated: Option<String>, peer: String) -> (r: String)
    ensures
        r == if stated is Some {
            stated->0
        } else {
            peer
        },
{
    match stated {
        Some(ip) => ip,
        None => peer,
    }
}

/// The token of an `Authorization` header of the form `Bearer <token>`.
pub open spec fn token_of(headers: HeaderMap<HeaderValue>) -> Option<Seq<char>> {
    match header_text(headers, "authorization"@) {
        Some(text) => if begins_with(text, "Bearer "@) {
            Some(text.skip("Bearer "@.len() as int))
        } else {
            None
        },
        None => None,
    }
}

/// The token that a request carries.
pub fn bearer_token<'a>(headers: &'a HeaderMap<HeaderValue>) -> (r: Option<&'a str>)
    ensures
        r is Some == token_of(*headers) is Some,
        r is Some ==> r->0@ == token_of(*headers)->0,
{
    match header_str(headers, "authorization") {
        Some(text) => strip_prefix(text, "Bearer "),
        None => None,
    }
}

/// The headers to send on to a backend: all but the host, the client's token, and the length,
/// which may change with the body.
pub fn forward_headers(headers: HeaderMap<HeaderValue>) -> (r: HeaderMap<HeaderValue>)
    ensures
        header_values(r) == header_values(headers).remove("host"@).remove(
            "authorization"@,
        ).remove("content-length"@),
{
    proof {
        lemma_names_are_lower();
    }
    let mut r = headers;
    header_remove(&mut r, "host");
    header_remove(&mut r, "authorization");
    header_remove(&mut r, "content-length");
    r
}

/// The headers to send back to a client: all but those on how the body is framed.
pub fn response_headers(headers: HeaderMap<HeaderValue>) -> (r: HeaderMap<HeaderValue>)
    ensures
        header_values(r) == header_values(headers).remove("transfer-encoding"@).remove(
            "content-length"@,
        ),
{
    proof {
        lemma_names_are_lower();
    }
    let mut r = headers;
    header_remove(&mut r, "transfer-encoding");
    header_remove(&mut r, "content-length");
    r
}

proof fn lemma_names_are_lower()
    ensures
        lower("host"@) == "host"@,
        lower("authorization"@) == "authorization"@,
        lower("content-length"@) == "content-length"@,
        lower("transfer-encoding"@) == "transfer-encoding"@,
{
    reveal_strlit("host");
    reveal_strlit("authorization");
    reveal_strlit("content-length");
    reveal_strlit("transfer-encoding");
    assert(lower("host"@) =~= "host"@);
    assert(lower("authorization"@) =~= "authorization"@);
    assert(lower("content-length"@) =~= "content-length"@);
    assert(lower("transfer-encoding"@) =~= "transfer-encoding"@);
}

/// The token is what follows `Bearer ` in the header, and there is one exactly where the header
/// begins so.
pub proof fn law_the_token_follows_bearer(headers: HeaderMap<HeaderValue>, token: Seq<char>)
    ensures
        token_of(headers) == Some(token) <==> header_text(headers, "authorization"@) == Some(
            "Bearer "@ + token,
        ),
{
    let bearer = "Bearer "@;
    match header_text(headers, "authorization"@) {
        Some(text) => {
            law_a_prefix_and_the_rest_make_the_text(text, bearer);
            if text == bearer + token {
                assert(text.skip(bearer.len() as int) =~= token);
                assert(text == (bearer + token));
                assert(begins_with(text, bearer));
            }
            if begins_with(text, bearer) && text.skip(bearer.len() as int) == token {
                assert(text == bearer + token);
            }
        },
        None => {},
    }
}

/// A header's text is that of its first value, byte by byte. There is none exactly where the
/// header is missing, or that value holds a byte that is neither visible nor a space or a tab.
pub proof fn law_a_header_is_its_first_value(headers: HeaderMap<HeaderValue>, name: Seq<char>)
    ensures
        ({
            let values = header_values(headers);
            let bytes = values[lower(name)][0];
            match header_text(headers, name) {
                Some(text) => {
                    &&& values.contains_key(lower(name))
                    &&& text.len() == bytes.len()
                    &&& forall|i: int|
                        0 <= i < text.len() ==> #[trigger] text[i] as int == bytes[i] && (bytes[i]
                            == 9 || 32 <= bytes[i] < 127)
                },
                None => !values.contains_key(lower(name)) || exists|i: int|
                    0 <= i < bytes.len() && #[trigger] bytes[i] != 9 && !(32 <= bytes[i] < 127),
            }
        }),
{
}

/// The letters' case in a header's name does not matter.
pub proof fn law_case_does_not_matter(
    headers: HeaderMap<HeaderValue>,
    a: Seq<char>,
    b: Seq<char>,
)
    requires
        a.len() == b.len(),
        forall|i: int|
            0 <= i < a.len() ==> #[trigger] a[i] == b[i] || ('A' <= a[i] <= 'Z' && b[i] as int
                == a[i] as int + 32) || ('A' <= b[i] <= 'Z' && a[i] as int == b[i] as int + 32),
    ensures
        header_text(headers, a) == header_text(headers, b),
{
    assert forall|i: int| 0 <= i < a.len() implies lower(a)[i] == lower(b)[i] by {
        assert(a[i] == b[i] || ('A' <= a[i] <= 'Z' && b[i] as int == a[i] as int + 32) || ('A'
            <= b[i] <= 'Z' && a[i] as int == b[i] as int + 32));
    }
    assert(lower(a) =~= lower(b));
}

/// Of several addresses in a header, separated by commas, the first counts, without the blanks
/// around it. Without such a header, or where none is trusted, no address is stated.
pub proof fn law_the_first_address_counts(
    headers: HeaderMap<HeaderValue>,
    name: Seq<char>,
    front: Seq<char>,
    address: Seq<char>,
    back: Seq<char>,
    others: Seq<char>,
)
    requires
        forall|i: int| 0 <= i < front.len() ==> #[trigger] front[i] == ' ' || front[i] == '\t',
        forall|i: int| 0 <= i < back.len() ==> #[trigger] back[i] == ' ' || back[i] == '\t',
        !address.contains(','),
        address.len() > 0 ==> address[0] != ' ' && address[0] != '\t' && address.last() != ' '
            && address.last() != '\t',
        others.len() > 0 ==> others[0] == ',',
    ensures
        header_text(headers, name) == Some(front + address + back + others) ==> stated_address(
            headers,
            Some(name),
        ) == Some(address),
        header_text(headers, name) is None ==> stated_address(headers, Some(name)) is None,
        stated_address(headers, None) is None,
{
    let all = front + address + back + others;
    let own = front + address + back;
    let head = before_first(all, ',');
    law_before_the_first(all, ',');
    assert forall|i: int| 0 <= i < own.len() implies own[i] != ',' by {
        if i < front.len() {
            assert(own[i] == front[i]);
        } else if i < front.len() + address.len() {
            assert(own[i] == address[i - front.len()]);
            assert(address.contains(address[i - front.len()]));
        } else {
            assert(own[i] == back[i - front.len() - address.len()]);
        }
    }
    assert(head.len() == own.len()) by {
        if head.len() < own.len() {
            assert(all[head.len() as int] == own[head.len() as int]);
        }
        if head.len() > own.len() {
            assert(all[own.len() as int] == others[0]);
            assert(head[own.len() as int] == ',');
            assert(head.contains(','));
        }
    }
    assert(head =~= own);
    let from = front.len() as int;
    let to = from + address.len();
    assert forall|i: int| 0 <= i < from implies #[trigger] own[i] == ' ' || own[i] == '\t' by {
        assert(own[i] == front[i]);
    }
    assert forall|i: int| to <= i < own.len() implies #[trigger] own[i] == ' ' || own[i]
        == '\t' by {
        assert(own[i] == back[i - to]);
    }
    law_trimming_takes_blanks_off_the_ends(own, from, to);
    assert(own.subrange(from, to) =~= address);
}

} // verus!
