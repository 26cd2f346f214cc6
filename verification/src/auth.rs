//! Pairing tokens and the authorisation of requests.

use vstd::prelude::*;
use vstd::utf8::encode_utf8;

use crate::numbers::{decimal, decimal_u32};
use crate::text::{chars_of, join_text, push_char, push_chars, push_text};

verus! {

/// Whether `c` is an ASCII letter or digit.
pub open spec fn is_ascii_alphanumeric(c: char) -> bool {
    ('0' <= c && c <= '9') || ('A' <= c && c <= 'Z') || ('a' <= c && c <= 'z')
}

/// One character drawn by `rand`'s `Alphanumeric` distribution from the
/// thread-local generator: the source shows it picks from `A`-`Z`, `a`-`z`
/// and `0`-`9`. Which one comes is chance, and not stated.
#[verifier::external_body]
fn random_alphanumeric() -> (c: char)
    ensures
        is_ascii_alphanumeric(c),
{
    char::from(rand::RngExt::sample(&mut rand::rng(), rand::distr::Alphanumeric))
}

/// A fresh random string of `len` ASCII letters and digits.
pub fn random_token(len: usize) -> (r: String)
    ensures
        r@.len() == len,
        forall|i: int| 0 <= i < len ==> is_ascii_alphanumeric(#[trigger] r@[i]),
{
    let mut out = String::new();
    let mut i: usize = 0;
    while i < len
        invariant
            i <= len,
            out@.len() == i,
            forall|j: int| 0 <= j < i ==> is_ascii_alphanumeric(#[trigger] out@[j]),
        decreases len - i,
    {
        let c = random_alphanumeric();
        push_char(&mut out, c);
        i = i + 1;
    }
    out
}

/// The length of a pairing token.
pub const TOKEN_LEN: usize = 64;

/// A fresh pairing token: 64 random ASCII letters and digits.
pub fn generate_new_token() -> (r: String)
    ensures
        r@.len() == TOKEN_LEN,
        forall|i: int| 0 <= i < TOKEN_LEN ==> is_ascii_alphanumeric(#[trigger] r@[i]),
{
    random_token(TOKEN_LEN)
}

/// The `Authorization` header value that carries `token`.
pub open spec fn bearer(token: Seq<char>) -> Seq<char> {
    "Bearer "@ + token
}

/// Whether a request with the given `Authorization` header bytes is let
/// through: exactly when the header is present and its bytes are the UTF-8
/// encoding of `Bearer ` followed by the token.
pub open spec fn admits(header: Option<Seq<u8>>, token: Seq<char>) -> bool {
    match header {
        Some(h) => h == encode_utf8(bearer(token)),
        None => false,
    }
}

/// The header value that carries `token`.
pub fn bearer_header(token: &str) -> (r: String)
    ensures
        r@ == bearer(token@),
{
    let mut out = "Bearer ".to_owned();
    let cs = chars_of(token);
    let mut i: usize = 0;
    while i < cs.len()
        invariant
            i <= cs@.len(),
            out@ == "Bearer "@ + cs@.take(i as int),
        decreases cs.len() - i,
    {
        push_char(&mut out, cs[i]);
        assert(("Bearer "@ + cs@.take(i as int)).push(cs@[i as int]) =~= "Bearer "@ + cs@.take(
            i + 1,
        ));
        i = i + 1;
    }
    assert(cs@.take(cs.len() as int) =~= cs@);
    out
}

fn bytes_equal(a: &[u8], b: &[u8]) -> (r: bool)
    ensures
        r == (a@ == b@),
{
    if a.len() != b.len() {
        return false;
    }
    let mut i: usize = 0;
    while i < a.len()
        invariant
            a@.len() == b@.len(),
            i <= a@.len(),
            forall|j: int| 0 <= j < i ==> a@[j] == b@[j],
        decreases a.len() - i,
    {
        if a[i] != b[i] {
            assert(a@[i as int] != b@[i as int]);
            return false;
        }
        i = i + 1;
    }
    assert(a@ =~= b@);
    true
}

/// Whether a request whose `Authorization` header has the given bytes (or
/// that has none) may reach the protected routes.
pub fn is_authorized(header: Option<&[u8]>, token: &str) -> (r: bool)
    ensures
        r == admits(
            match header {
                Some(h) => Some(h@),
                None => None,
            },
            token@,
        ),
{
    let expected = bearer_header(token);
    match header {
        Some(h) => {
            let e = expected.as_str().as_bytes();
            bytes_equal(h, e)
        },
        None => false,
    }
}

/// Law: the header made from a token is admitted for that token.
pub proof fn law_own_header_admitted(token: Seq<char>)
    ensures
        admits(Some(encode_utf8(bearer(token))), token),
{
}

/// Law: a request without an `Authorization` header is refused.
pub proof fn law_missing_header_refused(token: Seq<char>)
    ensures
        !admits(None, token),
{
}

/// Law: no header is admitted for two different tokens.
pub proof fn law_header_admits_one_token(header: Seq<u8>, t1: Seq<char>, t2: Seq<char>)
    requires
        admits(Some(header), t1),
        admits(Some(header), t2),
    ensures
        t1 == t2,
{
    vstd::utf8::encode_utf8_decode_utf8(bearer(t1));
    vstd::utf8::encode_utf8_decode_utf8(bearer(t2));
    assert(bearer(t1) == bearer(t2));
    assert(t1 =~= bearer(t1).skip(7)) by {
        reveal_strlit("Bearer ");
    }
    assert(t2 =~= bearer(t2).skip(7)) by {
        reveal_strlit("Bearer ");
    }
}

/// The address that pairs a phone with the daemon: the dashboard at
/// `host` and `port`, with the token in the query.
pub open spec fn pairing_address(host: Seq<char>, port: nat, token: Seq<char>) -> Seq<char> {
    "http://"@ + host + ":"@ + decimal(port) + "/?token="@ + token
}

/// The address that pairs a phone with the daemon.
pub fn pairing_url(host: &str, port: u16, token: &str) -> (r: String)
    ensures
        r@ == pairing_address(host@, port as nat, token@),
{
    let mut s = join_text("http://", host);
    push_text(&mut s, ":");
    let digits = decimal_u32(port as u32);
    push_chars(&mut s, digits.as_slice());
    push_text(&mut s, "/?token=");
    push_text(&mut s, token);
    s
}

} // verus!
