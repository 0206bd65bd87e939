//! SHA-256 fingerprints written as lowercase hexadecimal: workspace token
//! hashes, feed content hashes and action-card keys.
use vstd::prelude::*;
use sha2::Digest;
use vstd::utf8::encode_utf8;

verus! {

/// The SHA-256 digest of `data`.
pub uninterp spec fn sha256_digest(data: Seq<u8>) -> Seq<u8>;

/// Trusted: calls `sha2::Sha256::digest`. The contract names the digest of
/// the input bytes and states its length, 32 bytes; it says nothing else
/// about the bytes.
#[verifier::external_body]
fn sha256(data: &[u8]) -> (r: Vec<u8>)
    ensures
        r@ == sha256_digest(data@),
        r@.len() == 32,
{
    sha2::Sha256::digest(data).to_vec()
}

/// The lowercase hexadecimal digit for `d < 16`.
pub open spec fn hex_char(d: nat) -> char {
    if d < 10 {
        crate::text::digit_char(d)
    } else if d == 10 {
        'a'
    } else if d == 11 {
        'b'
    } else if d == 12 {
        'c'
    } else if d == 13 {
        'd'
    } else if d == 14 {
        'e'
    } else {
        'f'
    }
}

/// Two lowercase hex digits per byte, high nibble first (`{:x}` on a
/// digest).
pub open spec fn hex_lower(bytes: Seq<u8>) -> Seq<char>
    decreases bytes.len(),
{
    if bytes.len() == 0 {
        seq![]
    } else {
        hex_lower(bytes.drop_last()) + seq![
            hex_char((bytes.last() / 16) as nat),
            hex_char((bytes.last() % 16) as nat),
        ]
    }
}

/// A lowercase hexadecimal digit.
pub open spec fn is_hex_char(c: char) -> bool {
    ('0' <= c <= '9') || ('a' <= c <= 'f')
}

fn hex_digit(d: u8) -> (c: char)
    requires
        d < 16,
    ensures
        c == hex_char(d as nat),
{
    if d == 0 {
        '0'
    } else if d == 1 {
        '1'
    } else if d == 2 {
        '2'
    } else if d == 3 {
        '3'
    } else if d == 4 {
        '4'
    } else if d == 5 {
        '5'
    } else if d == 6 {
        '6'
    } else if d == 7 {
        '7'
    } else if d == 8 {
        '8'
    } else if d == 9 {
        '9'
    } else if d == 10 {
        'a'
    } else if d == 11 {
        'b'
    } else if d == 12 {
        'c'
    } else if d == 13 {
        'd'
    } else if d == 14 {
        'e'
    } else {
        'f'
    }
}

pub fn to_hex(bytes: &Vec<u8>) -> (r: Vec<char>)
    ensures
        r@ == hex_lower(bytes@),
{
    let mut out: Vec<char> = Vec::new();
    let n = bytes.len();
    let mut i: usize = 0;
    while i < n
        invariant
            n == bytes.len(),
            i <= n,
            out@ == hex_lower(bytes@.take(i as int)),
        decreases n - i,
    {
        let b = bytes[i];
        assert(bytes@.take(i + 1).drop_last() =~= bytes@.take(i as int));
        out.push(hex_digit(b / 16));
        out.push(hex_digit(b % 16));
        i += 1;
        assert(out@ =~= hex_lower(bytes@.take(i as int)));
    }
    assert(bytes@.take(n as int) =~= bytes@);
    out
}

/// The lowercase hex SHA-256 of the UTF-8 bytes of `text`.
pub open spec fn sha256_hex_spec(text: Seq<char>) -> Seq<char> {
    hex_lower(sha256_digest(encode_utf8(text)))
}

/// 64 lowercase hexadecimal characters.
pub open spec fn is_fingerprint(s: Seq<char>) -> bool {
    s.len() == 64 && forall|i: int| 0 <= i < 64 ==> is_hex_char(#[trigger] s[i])
}

/// `format!("{:x}", Sha256::digest(text.as_bytes()))`: always 64 lowercase
/// hexadecimal characters.
pub fn sha256_hex(text: &str) -> (r: String)
    ensures
        r@ == sha256_hex_spec(text@),
        is_fingerprint(r@),
{
    let digest = sha256(text.as_bytes());
    let hex = to_hex(&digest);
    proof {
        lemma_hex_shape(digest@);
    }
    crate::text::string_of(&hex)
}

/// The form in which a workspace token is stored: its SHA-256, in hex. It
/// differs from the token itself unless the token is a fingerprint-shaped
/// string.
pub fn token_hash(token: &str) -> (r: String)
    ensures
        r@ == sha256_hex_spec(token@),
        is_fingerprint(r@),
        !is_fingerprint(token@) ==> r@ != token@,
{
    sha256_hex(token)
}

pub proof fn lemma_hex_shape(bytes: Seq<u8>)
    ensures
        hex_lower(bytes).len() == 2 * bytes.len(),
        forall|i: int| 0 <= i < hex_lower(bytes).len() ==> is_hex_char(#[trigger] hex_lower(bytes)[i]),
    decreases bytes.len(),
{
    if bytes.len() > 0 {
        lemma_hex_shape(bytes.drop_last());
        let h = hex_lower(bytes);
        let p = hex_lower(bytes.drop_last());
        assert forall|i: int| 0 <= i < h.len() implies is_hex_char(#[trigger] h[i]) by {
            if i < p.len() {
                assert(h[i] == p[i]);
            }
        }
    }
}


/// Hex writing gives two characters per byte, in order: the digit of the
/// high nibble, then that of the low nibble, each from `0123456789abcdef`.
pub proof fn law_hex(bytes: Seq<u8>)
    ensures
        hex_lower(bytes).len() == 2 * bytes.len(),
        forall|i: int|
            0 <= i < bytes.len() ==> #[trigger] hex_lower(bytes)[2 * i] == "0123456789abcdef"@[(bytes[i] / 16) as int]
                && hex_lower(bytes)[2 * i + 1] == "0123456789abcdef"@[(bytes[i] % 16) as int],
    decreases bytes.len(),
{
    reveal_strlit("0123456789abcdef");
    lemma_hex_shape(bytes);
    if bytes.len() > 0 {
        let p = bytes.drop_last();
        law_hex(p);
        let h = hex_lower(bytes);
        assert forall|d: nat| d < 16 implies #[trigger] hex_char(d) == "0123456789abcdef"@[d as int] by {
            if d == 0 {} else if d == 1 {} else if d == 2 {} else if d == 3 {} else if d == 4 {}
            else if d == 5 {} else if d == 6 {} else if d == 7 {} else if d == 8 {} else if d == 9 {}
            else if d == 10 {} else if d == 11 {} else if d == 12 {} else if d == 13 {} else if d == 14 {}
            else {}
        }
        assert forall|i: int| 0 <= i < bytes.len() implies #[trigger] h[2 * i] == "0123456789abcdef"@[(bytes[i] / 16) as int]
            && h[2 * i + 1] == "0123456789abcdef"@[(bytes[i] % 16) as int] by {
            if i < p.len() {
                assert(h[2 * i] == hex_lower(p)[2 * i]);
                assert(h[2 * i + 1] == hex_lower(p)[2 * i + 1]);
                assert(p[i] == bytes[i]);
            } else {
                assert(hex_char((bytes[i] / 16) as nat) == "0123456789abcdef"@[(bytes[i] / 16) as int]);
                assert(hex_char((bytes[i] % 16) as nat) == "0123456789abcdef"@[(bytes[i] % 16) as int]);
            }
        }
    }
}
} // verus!
