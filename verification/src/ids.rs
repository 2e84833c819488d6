//! Short, stable identifiers for virtual resources, and the access token.

use vstd::prelude::*;
use crate::text::{hex_fixed, hex_fixed_exec, append_chars, string_of};

verus! {

/// The 64-bit hash the standard library's `DefaultHasher` gives a string.
pub uninterp spec fn default_hash(text: Seq<char>) -> u64;

/// Hashes a string with `DefaultHasher`, through `BuildHasher::hash_one` on a
/// default-built hasher. The hasher is not seeded per process, so the same
/// text always gives the same value in a given build; what that value is, is
/// left to the standard library.
#[verifier::external_body]
fn hash_text(text: &str) -> (h: u64)
    ensures
        h == default_hash(text@),
{
    std::hash::BuildHasher::hash_one(
        &std::hash::BuildHasherDefault::<std::collections::hash_map::DefaultHasher>::default(),
        text,
    )
}

/// The id of the resource with the given `daml://` URI: its hash as sixteen
/// lower-case hexadecimal digits.
pub open spec fn resource_id_of(uri: Seq<char>) -> Seq<char> {
    hex_fixed(default_hash(uri) as nat, 16)
}

/// A resource id is derived from its `daml://` URI so the same script always
/// gets the same page. It only has to be stable within one bridge process,
/// which is why the standard hasher is good enough.
pub fn resource_id(uri: &str) -> (r: String)
    ensures
        r@ == resource_id_of(uri@),
{
    let h = hash_text(uri);
    let digits = hex_fixed_exec(h, 16);
    string_of(digits.as_slice())
}

/// Bytes as lower-case hexadecimal, two digits each.
pub open spec fn hex_bytes(bytes: Seq<u8>) -> Seq<char>
    decreases bytes.len(),
{
    if bytes.len() == 0 {
        Seq::empty()
    } else {
        hex_bytes(bytes.drop_last()) + hex_fixed(bytes.last() as nat, 2)
    }
}

/// A lower-case hexadecimal digit.
pub open spec fn is_hex_digit(c: char) -> bool {
    ('0' <= c <= '9') || ('a' <= c <= 'f')
}

pub proof fn lemma_hex_fixed(n: nat, width: nat)
    ensures
        hex_fixed(n, width).len() == width,
        forall|i: int| 0 <= i < width ==> is_hex_digit(#[trigger] hex_fixed(n, width)[i]),
    decreases width,
{
    if width > 0 {
        lemma_hex_fixed(n / 16, (width - 1) as nat);
        let d = n % 16;
        assert(is_hex_digit(crate::text::hex_digit(d)));
    }
}

pub proof fn lemma_hex_bytes(bytes: Seq<u8>)
    ensures
        hex_bytes(bytes).len() == 2 * bytes.len(),
        forall|i: int| 0 <= i < hex_bytes(bytes).len() ==> is_hex_digit(#[trigger] hex_bytes(bytes)[i]),
    decreases bytes.len(),
{
    if bytes.len() > 0 {
        lemma_hex_bytes(bytes.drop_last());
        lemma_hex_fixed(bytes.last() as nat, 2);
        let a = hex_bytes(bytes.drop_last());
        let b = hex_fixed(bytes.last() as nat, 2);
        assert forall|i: int| 0 <= i < (a + b).len() implies is_hex_digit(#[trigger] (a + b)[i]) by {
            if i >= a.len() {
                assert((a + b)[i] == b[i - a.len()]);
            }
        }
    }
}

/// The token for the given random bytes: each byte as two hexadecimal digits.
pub fn token_from_bytes(bytes: &[u8]) -> (r: String)
    ensures
        r@ == hex_bytes(bytes@),
{
    let mut v: Vec<char> = Vec::new();
    let mut i: usize = 0;
    while i < bytes.len()
        invariant
            0 <= i <= bytes@.len(),
            v@ == hex_bytes(bytes@.take(i as int)),
        decreases bytes@.len() - i,
    {
        let pair = hex_fixed_exec(bytes[i] as u64, 2);
        append_chars(&mut v, pair.as_slice());
        proof {
            assert(bytes@.take(i + 1).drop_last() =~= bytes@.take(i as int));
        }
        i += 1;
    }
    assert(bytes@.take(bytes@.len() as int) =~= bytes@);
    string_of(v.as_slice())
}

#[verifier::external_type_specification]
#[verifier::external_body]
pub struct ExRandomError(getrandom::Error);

/// Fills the buffer from the system's source of randomness with
/// `getrandom::fill`. What the bytes are, and whether the source is
/// available, is up to the system.
#[verifier::external_body]
fn fill_random(bytes: &mut [u8; 16]) -> (r: Result<(), getrandom::Error>)
{
    getrandom::fill(bytes)
}

/// The HTTP server binds to loopback, but every other process on the machine
/// can reach loopback too, and these pages contain project source. Require a
/// token that only the bridge and the links it prints know: sixteen random
/// bytes in hexadecimal. `None` when the system has no source of randomness.
pub fn access_token() -> (r: Option<String>)
    ensures
        r matches Some(t) ==> t@.len() == 32 && (forall|i: int| 0 <= i < 32 ==> is_hex_digit(#[trigger] t@[i]))
            && exists|bytes: Seq<u8>| bytes.len() == 16 && t@ == hex_bytes(bytes),
{
    let mut bytes = [0u8; 16];
    match fill_random(&mut bytes) {
        Ok(()) => {
            let t = token_from_bytes(&bytes);
            proof {
                lemma_hex_bytes(bytes@);
            }
            Some(t)
        },
        Err(_) => None,
    }
}

} // verus!
