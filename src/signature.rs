//! Authentication of the crypto gateway's callbacks: the body's SHA-256
//! digest carries a secp256k1 compact signature, both keys given in hex.
use vstd::prelude::*;
use sha2::Digest;
use vstd::string::StringSliceAdditionalSpecFns;
use crate::error::BillingError;

verus! {

/// The SHA-256 digest of a byte string.
pub uninterp spec fn sha256_of(data: Seq<u8>) -> Seq<u8>;

/// Whether `sig` (64-byte compact form) is a valid secp256k1 ECDSA
/// signature of the 32-byte message `msg` under the public key `pk`.
pub uninterp spec fn ecdsa_verifies(msg: Seq<u8>, sig: Seq<u8>, pk: Seq<u8>) -> bool;

/// Relies on sha2's `Sha256::digest`: a 32-byte digest that depends on the input alone.
#[verifier::external_body]
pub(crate) fn sha256(data: &[u8]) -> (r: Vec<u8>)
    ensures
        r@ == sha256_of(data@),
        r@.len() == 32,
{
    sha2::Sha256::digest(data).to_vec()
}

/// Relies on secp256k1's `Message::from_slice`, `Signature::from_compact`,
/// `PublicKey::from_slice` and `Secp256k1::verify`: whether the signature
/// verifies; a signature that is not 64 bytes, a message that is not 32
/// bytes, or an empty key never does.
#[verifier::external_body]
fn verify_compact(msg: &[u8], sig: &[u8], pk: &[u8]) -> (r: bool)
    ensures
        r == ecdsa_verifies(msg@, sig@, pk@),
        sig@.len() != 64 ==> !r,
        msg@.len() != 32 ==> !r,
        pk@.len() == 0 ==> !r,
{
    let secp = secp256k1::Secp256k1::verification_only();
    match (
        secp256k1::Message::from_slice(msg),
        secp256k1::Signature::from_compact(sig),
        secp256k1::PublicKey::from_slice(pk),
    ) {
        (Ok(m), Ok(s), Ok(k)) => secp.verify(&m, &s, &k).is_ok(),
        _ => false,
    }
}

/// The value of a hex digit of either case.
pub open spec fn hex_value(b: u8) -> Option<u8> {
    if 48 <= b <= 57 {
        Some((b - 48) as u8)
    } else if 97 <= b <= 102 {
        Some((b - 97 + 10) as u8)
    } else if 65 <= b <= 70 {
        Some((b - 65 + 10) as u8)
    } else {
        None
    }
}

/// The values of the hex digits of `s`, other bytes skipped.
pub open spec fn nibbles(s: Seq<u8>) -> Seq<u8>
    decreases s.len(),
{
    if s.len() == 0 {
        Seq::empty()
    } else {
        match hex_value(s.last()) {
            Some(v) => nibbles(s.drop_last()).push(v),
            None => nibbles(s.drop_last()),
        }
    }
}

/// Hex decoding that skips non-digits and drops a trailing odd digit.
pub open spec fn decode_hex(s: Seq<u8>) -> Seq<u8> {
    let n = nibbles(s);
    Seq::new((n.len() / 2) as nat, |i: int| (n[2 * i] * 16 + n[2 * i + 1]) as u8)
}

fn hex_digit(b: u8) -> (r: Option<u8>)
    ensures
        r == hex_value(b),
        r matches Some(v) ==> v < 16,
{
    if 48 <= b && b <= 57 {
        Some(b - 48)
    } else if 97 <= b && b <= 102 {
        Some(b - 97 + 10)
    } else if 65 <= b && b <= 70 {
        Some(b - 65 + 10)
    } else {
        None
    }
}

proof fn lemma_nibbles_small(s: Seq<u8>)
    ensures
        forall|i: int| 0 <= i < nibbles(s).len() ==> #[trigger] nibbles(s)[i] < 16,
    decreases s.len(),
{
    if s.len() > 0 {
        lemma_nibbles_small(s.drop_last());
        let p = nibbles(s.drop_last());
        assert forall|i: int| 0 <= i < nibbles(s).len() implies #[trigger] nibbles(s)[i] < 16 by {
            if i < p.len() {
                assert(nibbles(s)[i] == p[i]);
            }
        }
    }
}

/// Decodes hex text to bytes: characters that are not hex digits are
/// skipped, digits pair up in order, and a last unpaired digit is dropped.
pub fn parse_hex(hex_asm: &str) -> (r: Vec<u8>)
    ensures
        r@ == decode_hex(hex_asm.spec_bytes()),
{
    let bytes = hex_asm.as_bytes();
    let ghost s = bytes@;
    let mut digits: Vec<u8> = Vec::new();
    let mut i: usize = 0;
    while i < bytes.len()
        invariant
            s == bytes@,
            0 <= i <= s.len(),
            digits@ == nibbles(s.take(i as int)),
        decreases s.len() - i,
    {
        proof {
            assert(s.take(i as int + 1).drop_last() =~= s.take(i as int));
        }
        match hex_digit(bytes[i]) {
            Some(v) => digits.push(v),
            None => {},
        }
        i = i + 1;
    }
    proof {
        assert(s.take(s.len() as int) =~= s);
        lemma_nibbles_small(s);
    }
    let ghost n = digits@;
    let mut out: Vec<u8> = Vec::new();
    let mut j: usize = 0;
    while j + 1 < digits.len()
        invariant
            n == digits@,
            n == nibbles(s),
            forall|k: int| 0 <= k < n.len() ==> #[trigger] n[k] < 16,
            j % 2 == 0,
            j <= n.len(),
            out@.len() == j / 2,
            forall|k: int| 0 <= k < out@.len() ==> #[trigger] out@[k] == (n[2 * k] * 16 + n[2 * k + 1]) as u8,
        decreases n.len() - j,
    {
        let h = digits[j];
        let l = digits[j + 1];
        out.push(h * 16 + l);
        j = j + 2;
    }
    proof {
        assert(out@ =~= decode_hex(s));
    }
    out
}

/// Checks a callback's signature: `signature` (hex) must be a valid
/// signature of the SHA-256 digest of the raw `body` under
/// `sign_public_key` (hex). Any other body or signature is `Forbidden`.
pub fn check_ture_sign(sign_public_key: &str, signature: &str, body: &[u8]) -> (r: Result<(), BillingError>)
    ensures
        r is Ok == ecdsa_verifies(
            sha256_of(body@),
            decode_hex(signature.spec_bytes()),
            decode_hex(sign_public_key.spec_bytes()),
        ),
        r matches Err(e) ==> e == BillingError::Forbidden,
{
    let digest = sha256(body);
    let public_key = parse_hex(sign_public_key);
    let sig = parse_hex(signature);
    if verify_compact(digest.as_slice(), sig.as_slice(), public_key.as_slice()) {
        Ok(())
    } else {
        Err(BillingError::Forbidden)
    }
}

} // verus!
