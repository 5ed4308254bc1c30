//! Digests and the texts that carry them.

use vstd::prelude::*;

use crate::numerals::{hex_digit, hex_value};
use crate::text::is_hex;

verus! {

/// Bytes in lower-case hexadecimal, two digits each.
pub open spec fn hex_text(bytes: Seq<u8>) -> Seq<char>
    decreases bytes.len(),
{
    if bytes.len() == 0 {
        Seq::empty()
    } else {
        hex_text(bytes.drop_last()).push(hex_digit(bytes.last() as int / 16)).push(
            hex_digit(bytes.last() as int % 16),
        )
    }
}

/// The bytes that hexadecimal digits of either case stand for, where there is an even
/// number of them and nothing else.
pub open spec fn hex_bytes(s: Seq<char>) -> Option<Seq<u8>> {
    if s.len() % 2 == 0 && forall|i: int| 0 <= i < s.len() ==> is_hex(#[trigger] s[i]) {
        Some(
            Seq::new(
                s.len() / 2,
                |i: int| (hex_value(s[2 * i]) * 16 + hex_value(s[2 * i + 1])) as u8,
            ),
        )
    } else {
        None
    }
}

/// The SHA-256 digest of bytes.
pub uninterp spec fn sha256(data: Seq<u8>) -> Seq<u8>;

/// The HMAC-SHA-256 tag of bytes under a key.
pub uninterp spec fn hmac_sha256(key: Seq<u8>, data: Seq<u8>) -> Seq<u8>;

/// A digit of base 64, in the alphabet for addresses.
pub open spec fn digit64(d: int) -> char {
    if d < 26 {
        (d + 65) as char
    } else if d < 52 {
        (d + 71) as char
    } else if d < 62 {
        (d - 4) as char
    } else if d == 62 {
        '-'
    } else {
        '_'
    }
}

/// Bytes in base 64, in the alphabet for addresses and without padding: four digits for
/// three bytes, and two or three for what is left.
pub open spec fn base64_url(bytes: Seq<u8>) -> Seq<char>
    decreases bytes.len(),
{
    if bytes.len() == 0 {
        Seq::empty()
    } else {
        let a = bytes[0] as int;
        let head = digit64(a / 4);
        if bytes.len() == 1 {
            seq![head, digit64(a % 4 * 16)]
        } else {
            let b = bytes[1] as int;
            let second = digit64(a % 4 * 16 + b / 16);
            if bytes.len() == 2 {
                seq![head, second, digit64(b % 16 * 4)]
            } else {
                let c = bytes[2] as int;
                seq![head, second, digit64(b % 16 * 4 + c / 64), digit64(c % 64)] + base64_url(
                    bytes.skip(3),
                )
            }
        }
    }
}

/// The length of bytes in base 64.
pub proof fn lemma_base64_len(bytes: Seq<u8>)
    ensures
        base64_url(bytes).len() == (bytes.len() * 4 + 2) / 3,
    decreases bytes.len(),
{
    if bytes.len() >= 3 {
        lemma_base64_len(bytes.skip(3));
    }
}

/// `hex::encode`: two lower-case hexadecimal digits for each byte.
#[verifier::external_body]
pub(crate) fn hex_encode(bytes: &Vec<u8>) -> (r: String)
    ensures
        r@ == hex_text(bytes@),
{
    hex::encode(bytes)
}

/// `hex::decode`: the bytes, unless the number of digits is odd or something is no
/// hexadecimal digit.
#[verifier::external_body]
pub(crate) fn hex_decode(text: &str) -> (r: Option<Vec<u8>>)
    ensures
        match r {
            Some(v) => hex_bytes(text@) == Some(v@),
            None => hex_bytes(text@) is None,
        },
{
    hex::decode(text).ok()
}

/// `sha2::Sha256::digest`: thirty-two bytes that depend on the data alone.
#[verifier::external_body]
pub(crate) fn sha256_of(data: &[u8]) -> (r: Vec<u8>)
    ensures
        r@ == sha256(data@),
        r@.len() == 32,
{
    <sha2::Sha256 as sha2::Digest>::digest(data).to_vec()
}

/// `hmac::Hmac::<Sha256>`: the tag that `finalize` gives after `update` with the data;
/// thirty-two bytes that depend on the key and the data alone.
#[verifier::external_body]
pub(crate) fn hmac_of(key: &Vec<u8>, data: &[u8]) -> (r: Vec<u8>)
    ensures
        r@ == hmac_sha256(key@, data@),
        r@.len() == 32,
{
    let mut mac = <hmac::Hmac<sha2::Sha256> as hmac::Mac>::new_from_slice(key).expect("any length");
    hmac::Mac::update(&mut mac, data);
    hmac::Mac::finalize(mac).into_bytes().to_vec()
}

/// `hmac::Mac::verify_slice`: whether a tag is the one for the data under the key,
/// compared in constant time.
#[verifier::external_body]
pub(crate) fn hmac_is(key: &Vec<u8>, data: &[u8], tag: &Vec<u8>) -> (r: bool)
    ensures
        r == (tag@ == hmac_sha256(key@, data@)),
{
    let mut mac = <hmac::Hmac<sha2::Sha256> as hmac::Mac>::new_from_slice(key).expect("any length");
    hmac::Mac::update(&mut mac, data);
    hmac::Mac::verify_slice(mac, tag).is_ok()
}

/// `base64::engine::general_purpose::URL_SAFE_NO_PAD.encode`: the bytes in base 64, in
/// the alphabet for addresses and without padding.
#[verifier::external_body]
pub(crate) fn base64_url_of(bytes: &Vec<u8>) -> (r: String)
    ensures
        r@ == base64_url(bytes@),
{
    base64::Engine::encode(&base64::engine::general_purpose::URL_SAFE_NO_PAD, bytes)
}

/// Hexadecimal text is made of hexadecimal digits, two for each byte.
pub proof fn lemma_hex_text(bytes: Seq<u8>)
    ensures
        hex_text(bytes).len() == 2 * bytes.len(),
        forall|i: int| 0 <= i < hex_text(bytes).len() ==> is_hex(#[trigger] hex_text(bytes)[i]),
        forall|i: int|
            0 <= i < bytes.len() ==> hex_text(bytes)[2 * i] == hex_digit(#[trigger] bytes[i] as int / 16)
                && hex_text(bytes)[2 * i + 1] == hex_digit(bytes[i] as int % 16),
    decreases bytes.len(),
{
    if bytes.len() > 0 {
        let d = bytes.drop_last();
        lemma_hex_text(d);
        let t = hex_text(bytes);
        let u = hex_text(d);
        assert forall|i: int| 0 <= i < t.len() implies is_hex(#[trigger] t[i]) by {
            if i < u.len() {
                assert(t[i] == u[i]);
            }
        }
        assert forall|i: int| 0 <= i < bytes.len() implies t[2 * i] == hex_digit(
            #[trigger] bytes[i] as int / 16,
        ) && t[2 * i + 1] == hex_digit(bytes[i] as int % 16) by {
            if i < d.len() {
                assert(d[i] == bytes[i]);
                assert(t[2 * i] == u[2 * i] && t[2 * i + 1] == u[2 * i + 1]);
            }
        }
    }
}

/// A hexadecimal digit stands for the number it was made from.
proof fn lemma_hex_digit(d: int)
    requires
        0 <= d < 16,
    ensures
        hex_value(hex_digit(d)) == d,
{
}

/// Hexadecimal text reads back as the bytes it was made from.
pub proof fn law_hex_reads_back(bytes: Seq<u8>)
    ensures
        hex_bytes(hex_text(bytes)) == Some(bytes),
{
    lemma_hex_text(bytes);
    let t = hex_text(bytes);
    let read = hex_bytes(t)->0;
    assert forall|i: int| 0 <= i < bytes.len() implies read[i] == bytes[i] by {
        let b = bytes[i] as int;
        lemma_hex_digit(b / 16);
        lemma_hex_digit(b % 16);
        assert(t[2 * i] == hex_digit(bytes[i] as int / 16));
        assert(t[2 * i + 1] == hex_digit(bytes[i] as int % 16));
    }
    assert(read =~= bytes);
}

}
