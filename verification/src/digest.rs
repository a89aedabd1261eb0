//! Content digests: SHA-256 (from `sha2`) rendered as lowercase hex (from `hex`),
//! and the identifiers derived from them.
use vstd::prelude::*;
use vstd::utf8::encode_utf8;
use sha2::Digest;
use crate::text::chars_of;
use crate::text::string_of;

verus! {

/// The SHA-256 digest of `data`.
pub uninterp spec fn spec_sha256(data: Seq<u8>) -> Seq<u8>;

/// The lowercase hexadecimal digit for `d < 16`.
pub open spec fn hex_digit(d: nat) -> char {
    if d < 10 {
        crate::text::digit_char(d)
    } else if d == 10 {
        'a'
    } else if d == 11 {
        'b'
    } else if d == 12 {
        'c'
    } else if d == 13 {
        'd'
    } else if d == 14 {
        'e'
    } else {
        'f'
    }
}

/// Lowercase hexadecimal: two digits per byte, high nibble first.
pub open spec fn spec_hex(data: Seq<u8>) -> Seq<char>
    decreases data.len(),
{
    if data.len() == 0 {
        seq![]
    } else {
        spec_hex(data.drop_last()) + seq![
            hex_digit((data.last() / 16) as nat),
            hex_digit((data.last() % 16) as nat),
        ]
    }
}

/// Whether `c` is a lowercase hexadecimal digit.
pub open spec fn is_hex_char(c: char) -> bool {
    ('0' <= c <= '9') || ('a' <= c <= 'f')
}

/// Whether `s` is a digest: 64 lowercase hexadecimal digits.
pub open spec fn is_digest(s: Seq<char>) -> bool {
    s.len() == 64 && forall|i: int| 0 <= i < s.len() ==> is_hex_char(#[trigger] s[i])
}

/// Hex encoding doubles the length and writes only lowercase hexadecimal digits.
pub proof fn lemma_hex_shape(data: Seq<u8>)
    ensures
        spec_hex(data).len() == 2 * data.len(),
        forall|i: int| 0 <= i < spec_hex(data).len() ==> is_hex_char(#[trigger] spec_hex(data)[i]),
    decreases data.len(),
{
    if data.len() > 0 {
        lemma_hex_shape(data.drop_last());
        let p = spec_hex(data.drop_last());
        let h = spec_hex(data);
        let hi = hex_digit((data.last() / 16) as nat);
        let lo = hex_digit((data.last() % 16) as nat);
        assert(is_hex_char(hi));
        assert(is_hex_char(lo));
        assert forall|i: int| 0 <= i < h.len() implies is_hex_char(#[trigger] h[i]) by {
            if i < p.len() {
                assert(h[i] == p[i]);
            }
        }
    }
}

/// The hex digest of the UTF-8 encoding of `text`.
pub open spec fn spec_hash_hex(text: Seq<char>) -> Seq<char> {
    spec_hex(spec_sha256(encode_utf8(text)))
}

/// `prefix`, an underscore, and the hex digest of `seed`.
pub open spec fn spec_stable_id(prefix: Seq<char>, seed: Seq<char>) -> Seq<char> {
    prefix + seq!['_'] + spec_hash_hex(seed)
}

/// `sha2::Sha256::digest`: the 32-byte SHA-256 digest of `data`.
#[verifier::external_body]
fn sha256(data: &[u8]) -> (r: Vec<u8>)
    ensures
        r@ == spec_sha256(data@),
        r@.len() == 32,
{
    sha2::Sha256::digest(data).to_vec()
}

/// `hex::encode`: each byte as two lowercase hexadecimal digits, high nibble first.
#[verifier::external_body]
fn hex_encode(data: &[u8]) -> (r: String)
    ensures
        r@ == spec_hex(data@),
{
    hex::encode(data)
}

/// The lowercase hex SHA-256 digest of `bytes`.
pub fn hash_hex(bytes: &[u8]) -> (r: String)
    ensures
        r@ == spec_hex(spec_sha256(bytes@)),
        is_digest(r@),
{
    let d = sha256(bytes);
    proof {
        lemma_hex_shape(d@);
    }
    hex_encode(d.as_slice())
}

/// The lowercase hex SHA-256 digest of the UTF-8 encoding of `text`.
pub fn hash_str(text: &str) -> (r: String)
    ensures
        r@ == spec_hash_hex(text@),
        is_digest(r@),
{
    hash_hex(text.as_bytes())
}

/// `prefix`, `_` and the hex digest of `seed`.
pub fn stable_id(prefix: &str, seed: &str) -> (r: String)
    ensures
        r@ == spec_stable_id(prefix@, seed@),
{
    let mut out = chars_of(prefix);
    out.push('_');
    let h = hash_str(seed);
    let hc = chars_of(h.as_str());
    crate::text::push_all(&mut out, hc.as_slice());
    let r = string_of(out.as_slice());
    assert(r@ =~= spec_stable_id(prefix@, seed@));
    r
}

} // verus!
