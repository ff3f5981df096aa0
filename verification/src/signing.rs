//! Request signing.

use hmac::{Hmac, Mac};
use sha2::Sha256;
use vstd::prelude::*;
use vstd::string::*;

verus! {

/// What HMAC with SHA-256 makes of a message under a key.
pub uninterp spec fn hmac_sha256_of(key: Seq<u8>, message: Seq<u8>) -> Seq<u8>;

/// A hexadecimal digit, in small letters.
pub open spec fn hex_digit(n: int) -> char {
    if n < 10 {
        (48 + n) as char
    } else {
        (87 + n) as char
    }
}

/// Each byte as two hexadecimal digits, the high one first.
pub open spec fn hex_text(bytes: Seq<u8>) -> Seq<char>
    decreases bytes.len(),
{
    if bytes.len() == 0 {
        Seq::empty()
    } else {
        hex_text(bytes.drop_last()).push(hex_digit(bytes.last() as int / 16)).push(
            hex_digit(bytes.last() as int % 16),
        )
    }
}

/// Calls `hmac::Hmac::<sha2::Sha256>`: `new_from_slice`, which takes keys of any
/// length, `update` and `finalize`. The code has 32 bytes and depends on the key
/// and the message alone; what it is, is only named.
#[verifier::external_body]
fn hmac_sha256(key: &[u8], message: &[u8]) -> (r: Vec<u8>)
    ensures
        r@ == hmac_sha256_of(key@, message@),
        r@.len() == 32,
{
    let mut mac = <Hmac<Sha256> as Mac>::new_from_slice(key).expect("HMAC accepts any key");
    mac.update(message);
    mac.finalize().into_bytes().to_vec()
}

/// Calls `hex::encode`, which writes each byte as two hexadecimal digits in small
/// letters.
#[verifier::external_body]
fn hex_encode(bytes: &[u8]) -> (r: String)
    ensures
        r@ == hex_text(bytes@),
{
    hex::encode(bytes)
}

/// The signature of a query under a secret.
pub open spec fn signature_of(secret: Seq<char>, query: Seq<char>) -> Seq<char> {
    hex_text(hmac_sha256_of(vstd::utf8::encode_utf8(secret), vstd::utf8::encode_utf8(query)))
}

pub open spec fn is_hex_digit(c: char) -> bool {
    '0' <= c <= '9' || 'a' <= c <= 'f'
}

proof fn lemma_hex_text(bytes: Seq<u8>)
    ensures
        hex_text(bytes).len() == 2 * bytes.len(),
        forall|i: int| 0 <= i < 2 * bytes.len() ==> is_hex_digit(#[trigger] hex_text(bytes)[i]),
    decreases bytes.len(),
{
    if bytes.len() > 0 {
        lemma_hex_text(bytes.drop_last());
        let front = hex_text(bytes.drop_last());
        let text = hex_text(bytes);
        assert forall|i: int| 0 <= i < 2 * bytes.len() implies is_hex_digit(#[trigger] text[i]) by {
            if i < front.len() {
                assert(text[i] == front[i]);
            }
        }
    }
}

/// Signs a query: the same query under the same secret always has the same
/// signature, of 64 hexadecimal digits.
pub fn sign(secret: &str, query: &str) -> (r: String)
    ensures
        r@ == signature_of(secret@, query@),
        r@.len() == 64,
        forall|i: int| 0 <= i < 64 ==> is_hex_digit(#[trigger] r@[i]),
{
    let mac = hmac_sha256(secret.as_bytes(), query.as_bytes());
    proof {
        lemma_hex_text(mac@);
    }
    hex_encode(mac.as_slice())
}

/// A byte is written as two digits of which the first counts sixteenfold, behind those of
/// the bytes before it.
pub proof fn law_bytes_are_two_digits(bytes: Seq<u8>, byte: u8, high: int, low: int)
    requires
        0 <= high < 16,
        0 <= low < 16,
        byte == 16 * high + low,
    ensures
        hex_text(Seq::<u8>::empty()).len() == 0,
        hex_text(bytes.push(byte)) == hex_text(bytes) + seq![hex_digit(high), hex_digit(low)],
        high < 10 ==> hex_digit(high) as u32 == '0' as u32 + high,
        high >= 10 ==> hex_digit(high) as u32 == 'a' as u32 + (high - 10),
{
    assert(bytes.push(byte).drop_last() =~= bytes);
    assert(hex_text(bytes.push(byte)) =~= hex_text(bytes) + seq![hex_digit(high), hex_digit(low)]);
}

} // verus!
