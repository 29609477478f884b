//! Digests and signatures.
//!
//! SHA-256 comes from `sha2`, Ed25519 from `ed25519_dalek`. What those
//! crates compute is named here; every function below makes one such
//! computation.

use vstd::prelude::*;
use crate::text;

verus! {

/// The SHA-256 digest of a message.
pub uninterp spec fn sha256_of(message: Seq<u8>) -> Seq<u8>;

/// The Ed25519 public key of a secret seed.
pub uninterp spec fn ed25519_public(seed: Seq<u8>) -> Seq<u8>;

/// The Ed25519 signature of a message under a secret seed.
pub uninterp spec fn ed25519_signature(seed: Seq<u8>, message: Seq<u8>) -> Seq<u8>;

/// Whether a signature of a message holds under an Ed25519 public key.
pub uninterp spec fn ed25519_holds(key: Seq<u8>, message: Seq<u8>, signature: Seq<u8>) -> bool;

/// Why bytes are no Ed25519 public key; nothing when they are one.
pub uninterp spec fn ed25519_key_fault(key: Seq<u8>) -> Option<Seq<char>>;

/// `sha2::Sha256::digest`: the digest of a message, 32 bytes.
#[verifier::external_body]
pub(crate) fn sha256(message: &[u8]) -> (r: [u8; 32])
    ensures
        r@ == sha256_of(message@),
{
    <sha2::Sha256 as sha2::Digest>::digest(message).into()
}

/// `ed25519_dalek::SigningKey::from_bytes`, then `verifying_key`: the
/// public key of a seed, which `VerifyingKey::from_bytes` accepts.
#[verifier::external_body]
pub(crate) fn public_key_of(seed: &[u8; 32]) -> (r: [u8; 32])
    ensures
        r@ == ed25519_public(seed@),
        ed25519_key_fault(r@) is None,
{
    ed25519_dalek::SigningKey::from_bytes(seed).verifying_key().to_bytes()
}

/// `ed25519_dalek::SigningKey::sign`: the signature of a message under a
/// seed, 64 bytes, which holds under the seed's public key.
#[verifier::external_body]
pub(crate) fn sign(seed: &[u8; 32], message: &[u8]) -> (r: Vec<u8>)
    ensures
        r@ == ed25519_signature(seed@, message@),
        r@.len() == 64,
        ed25519_holds(ed25519_public(seed@), message@, r@),
{
    let key = ed25519_dalek::SigningKey::from_bytes(seed);
    ed25519_dalek::Signer::sign(&key, message).to_bytes().to_vec()
}

/// `ed25519_dalek::VerifyingKey::from_bytes`: the `Display` of its error,
/// when it refuses the key.
#[verifier::external_body]
pub(crate) fn key_fault(key: &[u8; 32]) -> (r: Option<String>)
    ensures
        text::opt_view(r) == ed25519_key_fault(key@),
{
    ed25519_dalek::VerifyingKey::from_bytes(key).err().map(|e| e.to_string())
}

/// `ed25519_dalek::Signature::from_slice`: it refuses anything but 64
/// bytes, with an error that is displayed as `signature error`.
#[verifier::external_body]
pub(crate) fn signature_fault(signature: &[u8]) -> (r: Option<String>)
    ensures
        match r {
            Some(e) => signature@.len() != 64 && e@ == "signature error"@,
            None => signature@.len() == 64,
        },
{
    ed25519_dalek::Signature::from_slice(signature).err().map(|e| e.to_string())
}

/// `ed25519_dalek::VerifyingKey::verify`: whether a signature of a message
/// holds under a key.
#[verifier::external_body]
pub(crate) fn holds(key: &[u8; 32], message: &[u8], signature: &[u8]) -> (r: bool)
    requires
        ed25519_key_fault(key@) is None,
        signature@.len() == 64,
    ensures
        r == ed25519_holds(key@, message@, signature@),
{
    let key = ed25519_dalek::VerifyingKey::from_bytes(key);
    let signature = ed25519_dalek::Signature::from_slice(signature);
    match (key, signature) {
        (Ok(k), Ok(s)) => ed25519_dalek::Verifier::verify(&k, message, &s).is_ok(),
        _ => false,
    }
}

/// The lower-case hexadecimal digit of `n`, for `n < 16`.
pub open spec fn hex_digit(n: int) -> char {
    if n < 10 {
        ('0' as int + n) as char
    } else {
        ('a' as int + (n - 10)) as char
    }
}

/// Bytes in lower-case hexadecimal notation.
pub open spec fn hex_text(b: Seq<u8>) -> Seq<char>
    decreases b.len(),
{
    if b.len() == 0 {
        Seq::empty()
    } else {
        hex_text(b.drop_last()).push(hex_digit(b.last() as int / 16)).push(
            hex_digit(b.last() as int % 16),
        )
    }
}

/// The value of a hexadecimal digit.
pub open spec fn hex_value(c: char) -> Option<int> {
    if '0' <= c <= '9' {
        Some(c as int - '0' as int)
    } else if 'a' <= c <= 'f' {
        Some(c as int - 'a' as int + 10)
    } else if 'A' <= c <= 'F' {
        Some(c as int - 'A' as int + 10)
    } else {
        None
    }
}

/// The byte that two hexadecimal digits denote.
pub open spec fn hex_byte(a: char, b: char) -> Option<u8> {
    match (hex_value(a), hex_value(b)) {
        (Some(high), Some(low)) => Some((16 * high + low) as u8),
        _ => None,
    }
}

/// The bytes that a hexadecimal text denotes.
pub open spec fn hex_bytes(s: Seq<char>) -> Option<Seq<u8>>
    decreases s.len(),
{
    if s.len() == 0 {
        Some(Seq::empty())
    } else if s.len() == 1 {
        None
    } else {
        match (hex_bytes(s.take(s.len() - 2)), hex_byte(s[s.len() - 2], s[s.len() - 1])) {
            (Some(head), Some(b)) => Some(head.push(b)),
            _ => None,
        }
    }
}

/// Bytes in hexadecimal notation are read back.
pub proof fn hex_round_trip(b: Seq<u8>)
    ensures
        hex_bytes(hex_text(b)) == Some(b),
        hex_text(b).len() == 2 * b.len(),
    decreases b.len(),
{
    if b.len() > 0 {
        let h = b.drop_last();
        let s = hex_text(b);
        hex_round_trip(h);
        assert(s.take(s.len() - 2) =~= hex_text(h));
        let n = b.last() as int;
        assert(hex_value(hex_digit(n / 16)) == Some(n / 16));
        assert(hex_value(hex_digit(n % 16)) == Some(n % 16));
        assert(h.push(b.last()) =~= b);
    } else {
        assert(b =~= Seq::<u8>::empty());
    }
}

/// The lower-case hexadecimal digit of `n`.
fn digit(n: u8) -> (r: char)
    requires
        n < 16,
    ensures
        r == hex_digit(n as int),
{
    if n < 10 {
        (48u8 + n) as char
    } else {
        (97u8 + (n - 10)) as char
    }
}

/// Bytes in lower-case hexadecimal notation.
pub fn hex_lower(bytes: &[u8]) -> (r: String)
    ensures
        r@ == hex_text(bytes@),
{
    let mut out = String::new();
    let mut i: usize = 0;
    assert(bytes@.take(0) =~= Seq::<u8>::empty());
    while i < bytes.len()
        invariant
            i <= bytes@.len(),
            out@ == hex_text(bytes@.take(i as int)),
        decreases bytes@.len() - i,
    {
        let b = bytes[i];
        out.push(digit(b / 16));
        out.push(digit(b % 16));
        i = i + 1;
        assert(bytes@.take(i as int).drop_last() =~= bytes@.take(i - 1));
        assert(bytes@.take(i as int).last() == b);
    }
    assert(bytes@.take(i as int) =~= bytes@);
    out
}

/// The value of a hexadecimal digit.
fn value(c: char) -> (r: Option<u8>)
    ensures
        match r {
            Some(n) => hex_value(c) == Some(n as int) && n < 16,
            None => hex_value(c) is None,
        },
{
    if '0' <= c && c <= '9' {
        Some(c as u8 - 48)
    } else if 'a' <= c && c <= 'f' {
        Some(c as u8 - 87)
    } else if 'A' <= c && c <= 'F' {
        Some(c as u8 - 55)
    } else {
        None
    }
}

/// A prefix of an even number of characters that denotes no bytes spoils
/// the whole.
proof fn hex_bytes_fail(s: Seq<char>, n: int)
    requires
        0 <= n <= s.len(),
        n % 2 == 0,
        hex_bytes(s.take(n)) is None,
    ensures
        hex_bytes(s) is None,
    decreases s.len() - n,
{
    if n == s.len() {
        assert(s.take(n) =~= s);
    } else if n + 1 == s.len() {
        hex_bytes_odd(s);
    } else {
        let t = s.take(n + 2);
        assert(t.take(t.len() - 2) =~= s.take(n));
        hex_bytes_fail(s, n + 2);
    }
}

/// An odd number of characters denotes no bytes.
proof fn hex_bytes_odd(s: Seq<char>)
    requires
        s.len() % 2 == 1,
    ensures
        hex_bytes(s) is None,
    decreases s.len(),
{
    if s.len() > 1 {
        hex_bytes_odd(s.take(s.len() - 2));
    }
}

/// A text denotes bytes exactly when it is an even number of hexadecimal
/// digits.
pub proof fn hex_bytes_rule(s: Seq<char>)
    ensures
        hex_bytes(s) is Some <==> s.len() % 2 == 0 && forall|i: int|
            0 <= i < s.len() ==> hex_value(#[trigger] s[i]) is Some,
    decreases s.len(),
{
    let n = s.len() as int;
    if n % 2 == 1 {
        hex_bytes_odd(s);
    } else if n > 0 {
        let t = s.take(n - 2);
        hex_bytes_rule(t);
        assert forall|i: int| 0 <= i < n - 2 implies t[i] == #[trigger] s[i] by {}
        if hex_bytes(s) is Some {
            assert forall|i: int| 0 <= i < n implies hex_value(#[trigger] s[i]) is Some by {
                if i < n - 2 {
                    assert(hex_value(t[i]) is Some);
                }
            }
        } else {
            assert(hex_value(s[n - 2]) is None || hex_value(s[n - 1]) is None || hex_bytes(t) is None);
            if hex_bytes(t) is None {
                let i = choose|i: int| 0 <= i < t.len() && hex_value(#[trigger] t[i]) is None;
                assert(hex_value(s[i]) is None);
            }
        }
    }
}

/// Reads a hexadecimal text.
pub fn hex_decode(s: &str) -> (r: Option<Vec<u8>>)
    ensures
        match r {
            Some(b) => hex_bytes(s@) == Some(b@),
            None => hex_bytes(s@) is None,
        },
{
    let v = text::chars(s);
    if v.len() % 2 != 0 {
        proof {
            hex_bytes_odd(s@);
        }
        return None;
    }
    let mut out: Vec<u8> = Vec::new();
    let mut i: usize = 0;
    assert(v@.take(0) =~= Seq::<char>::empty());
    while i < v.len()
        invariant
            v@ == s@,
            i <= v@.len(),
            i % 2 == 0,
            v@.len() % 2 == 0,
            hex_bytes(v@.take(i as int)) == Some(out@),
        decreases v@.len() - i,
    {
        let ghost t = v@.take(i + 2);
        assert(t.take(t.len() - 2) =~= v@.take(i as int));
        let a = v[i];
        let b = v[i + 1];
        match (value(a), value(b)) {
            (Some(h), Some(l)) => {
                out.push(16 * h + l);
            },
            _ => {
                proof {
                    hex_bytes_fail(v@, i + 2);
                }
                return None;
            },
        }
        i = i + 2;
    }
    assert(v@.take(i as int) =~= v@);
    Some(out)
}

/// Each byte is written as two lower-case hexadecimal digits, the higher
/// one first.
pub proof fn bytes_are_written_digit_by_digit(b: Seq<u8>, i: int)
    requires
        0 <= i < b.len(),
    ensures
        hex_text(b).len() == 2 * b.len(),
        hex_value(hex_text(b)[2 * i]) == Some(b[i] as int / 16),
        hex_value(hex_text(b)[2 * i + 1]) == Some(b[i] as int % 16),
        !('A' <= hex_text(b)[2 * i] <= 'F') && !('A' <= hex_text(b)[2 * i + 1] <= 'F'),
    decreases b.len(),
{
    hex_round_trip(b);
    let h = b.drop_last();
    hex_round_trip(h);
    if i < h.len() {
        bytes_are_written_digit_by_digit(h, i);
        assert(hex_text(b)[2 * i] == hex_text(h)[2 * i]);
        assert(hex_text(b)[2 * i + 1] == hex_text(h)[2 * i + 1]);
    }
}

/// A hexadecimal digit is worth its place among `0` to `9` and `a` to `f`,
/// in either case.
pub proof fn hexadecimal_digits(c: char)
    ensures
        hex_value('0') == Some(0int) && hex_value('9') == Some(9int) && hex_value('a') == Some(10int)
            && hex_value('f') == Some(15int) && hex_value('A') == Some(10int) && hex_value('F') == Some(
            15int,
        ),
        hex_value(c) is Some <==> '0' <= c <= '9' || 'a' <= c <= 'f' || 'A' <= c <= 'F',
{
}

} // verus!
