//! Secrets made of random bytes.

use crate::digits::{self, hex_text};
use crate::text;
use vstd::prelude::*;

verus! {

/// `getrandom::getrandom` on a buffer of `n` bytes: the buffer keeps its length, and comes
/// with the words of the error where there was one. Nothing is said of the bytes, which
/// are random where it succeeds; where it fails, some may still be zero.
#[verifier::external_body]
fn random_bytes(n: usize) -> (filled: (Vec<u8>, Option<String>))
    ensures
        filled.0@.len() == n,
{
    let mut bytes = vec![0u8; n];
    match getrandom::getrandom(&mut bytes) {
        Ok(()) => (bytes, None),
        Err(e) => (bytes, Some(e.to_string())),
    }
}

/// Is `t` the hexadecimal writing of `n` bytes?
pub open spec fn is_secret(t: Seq<char>, n: nat) -> bool {
    exists|bytes: Seq<u8>| bytes.len() == n && t == #[trigger] digits::hex_of(bytes)
}

/// The pairing code of an executor: sixteen bytes in hexadecimal. The bytes are used as
/// they are where no random ones could be had.
pub fn exec_token() -> (token: String)
    ensures
        is_secret(token@, 16),
        token@.len() == 32,
{
    let (bytes, _error) = random_bytes(16);
    hex_text(bytes.as_slice())
}

/// The key of an edge proxy for given random bytes: the bytes in hexadecimal, or the words
/// of the error that came with them.
pub fn token_of_bytes(bytes: &Vec<u8>, error: &Option<String>) -> (token: Result<String, String>)
    ensures
        match token {
            Ok(t) => error is None && t@ == digits::hex_of(bytes@),
            Err(e) => text::opt_view(*error) is Some && e@ == "edge proxy token: "@
                + text::opt_view(*error)->0,
        },
{
    match error {
        None => Ok(hex_text(bytes.as_slice())),
        Some(e) => {
            let message: String = "edge proxy token: ".to_owned();
            Err(message.concat(e.as_str()))
        },
    }
}

/// The key of an edge proxy: twenty-four random bytes in hexadecimal.
pub fn edge_proxy_token() -> (token: Result<String, String>)
    ensures
        match token {
            Ok(t) => is_secret(t@, 24),
            Err(e) => text::begins(e@, "edge proxy token: "@),
        },
{
    let (bytes, error) = random_bytes(24);
    let token: Result<String, String> = token_of_bytes(&bytes, &error);
    if let Err(e) = &token {
        let ghost cause = text::opt_view(error)->0;
        assert(e@.subrange(0, "edge proxy token: "@.len() as int) =~= "edge proxy token: "@);
    }
    token
}

/// A secret of more bytes is longer, by two digits a byte, and different bytes make different
/// secrets.
pub proof fn law_secrets(t: Seq<char>, n: nat, a: Seq<u8>, b: Seq<u8>)
    ensures
        is_secret(t, n) ==> t.len() == 2 * n,
        is_secret(digits::hex_of(a), a.len()),
        a != b ==> digits::hex_of(a) != digits::hex_of(b),
{
    digits::law_hex_tells_bytes_apart(a, b);
    if is_secret(t, n) {
        let bytes = choose|bytes: Seq<u8>| bytes.len() == n && t == #[trigger] digits::hex_of(bytes);
        digits::law_hex_tells_bytes_apart(bytes, bytes);
    }
}

} // verus!
