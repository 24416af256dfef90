//! Authentication of requests to the crypto gateway: each request carries a
//! timestamp, an empty device id, and a secp256k1 compact signature of the
//! SHA-256 digest of the timestamp followed by the device id.
use vstd::prelude::*;
use crate::error::{BillingError, InternalReason};
use crate::signature::{decode_hex, hex_value, parse_hex, sha256, sha256_of};
use vstd::string::{StringExecFns, StringSliceAdditionalSpecFns};

verus! {

/// The compact signature of the 32-byte `msg` under the secret key `sk`,
/// with the deterministic nonce of RFC 6979.
pub uninterp spec fn ecdsa_sign_of(msg: Seq<u8>, sk: Seq<u8>) -> Seq<u8>;

/// Whether `sk` is a valid secret key and `msg` a valid message, so that
/// signing succeeds.
pub uninterp spec fn ecdsa_signs(msg: Seq<u8>, sk: Seq<u8>) -> bool;

/// Relies on secp256k1's `SecretKey::from_slice`, `Message::from_slice`,
/// `Secp256k1::sign` (RFC 6979 nonce) and `Signature::serialize_compact`:
/// a 64-byte signature that depends on the message and the key alone, and
/// whether there is one depends on them alone too; no signature without a
/// 32-byte message and a 32-byte key.
#[verifier::external_body]
fn sign_compact(msg: &[u8], secret_key: &[u8]) -> (r: Option<Vec<u8>>)
    ensures
        r.is_some() == ecdsa_signs(msg@, secret_key@),
        r matches Some(s) ==> s@ == ecdsa_sign_of(msg@, secret_key@) && s@.len() == 64,
        msg@.len() != 32 ==> r.is_none(),
        secret_key@.len() != 32 ==> r.is_none(),
{
    match (secp256k1::Message::from_slice(msg), secp256k1::SecretKey::from_slice(secret_key)) {
        (Ok(m), Ok(k)) => Some(secp256k1::Secp256k1::new().sign(&m, &k).serialize_compact().to_vec()),
        _ => None,
    }
}

/// The lower-case hex digit of a value below 16.
pub open spec fn hex_char(v: int) -> char {
    if v < 10 {
        ((48 + v) as u8) as char
    } else {
        ((87 + v) as u8) as char
    }
}

/// Two lower-case hex digits per byte, high digit first.
pub open spec fn hex_of(b: Seq<u8>) -> Seq<char> {
    Seq::new(2 * b.len(), |i: int| if i % 2 == 0 { hex_char(b[i / 2] as int / 16) } else { hex_char(b[i / 2] as int % 16) })
}

/// Relies on hex's `encode`: two lower-case hex digits for each byte, in order.
#[verifier::external_body]
fn hex_encode(b: &[u8]) -> (r: String)
    ensures
        r@ == hex_of(b@),
{
    hex::encode(b)
}

/// The decimal digits of `n`, as ASCII bytes.
pub open spec fn decimal_bytes(n: nat) -> Seq<u8>
    decreases n,
{
    if n < 10 {
        seq![(48 + n) as u8]
    } else {
        decimal_bytes(n / 10).push((48 + n % 10) as u8)
    }
}

/// A unix timestamp as decimal text, with a minus sign when negative.
pub open spec fn timestamp_bytes(t: int) -> Seq<u8> {
    if t < 0 {
        seq![45u8] + decimal_bytes((-t) as nat)
    } else {
        decimal_bytes(t as nat)
    }
}

fn push_decimal(n: u64, out: &mut Vec<u8>)
    ensures
        final(out)@ == old(out)@ + decimal_bytes(n as nat),
    decreases n,
{
    if n >= 10 {
        push_decimal(n / 10, out);
    }
    out.push((48 + n % 10) as u8);
    proof {
        if n >= 10 {
            assert(old(out)@ + decimal_bytes(n as nat) =~= old(out)@ + decimal_bytes((n / 10) as nat) + seq![(48 + n % 10) as u8]);
        } else {
            assert(old(out)@ + decimal_bytes(n as nat) =~= old(out)@.push((48 + n % 10) as u8));
        }
    }
}

/// Renders a unix timestamp as decimal text.
pub fn timestamp_text(t: i64) -> (r: Vec<u8>)
    ensures
        r@ == timestamp_bytes(t as int),
{
    let mut out: Vec<u8> = Vec::new();
    if t < 0 {
        out.push(45);
        let magnitude = (0i128 - t as i128) as u64;
        push_decimal(magnitude, &mut out);
    } else {
        push_decimal(t as u64, &mut out);
    }
    proof {
        if t >= 0 {
            assert(out@ =~= timestamp_bytes(t as int));
        } else {
            assert(out@ =~= timestamp_bytes(t as int));
        }
    }
    out
}

/// Text that is hex digits only, two per byte.
pub open spec fn strict_hex(s: Seq<u8>) -> bool {
    s.len() % 2 == 0 && forall|i: int| 0 <= i < s.len() ==> (#[trigger] hex_value(s[i])).is_some()
}

/// Decodes hex text strictly: an even number of hex digits of either case,
/// nothing else.
pub fn parse_hex_strict(text: &str) -> (r: Option<Vec<u8>>)
    ensures
        r.is_some() == strict_hex(text.spec_bytes()),
        r matches Some(v) ==> v@ == decode_hex(text.spec_bytes()),
{
    let bytes = text.as_bytes();
    if bytes.len() % 2 != 0 {
        return None;
    }
    let mut i: usize = 0;
    while i < bytes.len()
        invariant
            bytes@ == text.spec_bytes(),
            0 <= i <= bytes@.len(),
            forall|k: int| 0 <= k < i ==> (#[trigger] hex_value(bytes@[k])).is_some(),
        decreases bytes@.len() - i,
    {
        let b = bytes[i];
        let digit = (48 <= b && b <= 57) || (97 <= b && b <= 102) || (65 <= b && b <= 70);
        if !digit {
            proof {
                assert(hex_value(bytes@[i as int]).is_none());
            }
            return None;
        }
        i = i + 1;
    }
    Some(parse_hex(text))
}

/// The headers that authenticate a request to the crypto gateway.
#[derive(Clone, Debug)]
pub struct AuthHeaders {
    pub authorization: String,
    pub timestamp: Vec<u8>,
    pub device_id: Vec<u8>,
    pub sign: String,
}

/// Signs a request made at `timestamp` with the operator's secret key
/// (strict hex) and bearer token: the signature covers the SHA-256 digest of
/// the timestamp's decimal text followed by the empty device id. Fails
/// (`Internal`) exactly when the key is not strict hex or cannot sign.
pub fn request_auth(timestamp: i64, private_key: &str, user_jwt: &str) -> (r: Result<AuthHeaders, BillingError>)
    ensures
        r is Ok == (strict_hex(private_key.spec_bytes()) && ecdsa_signs(
            sha256_of(timestamp_bytes(timestamp as int)),
            decode_hex(private_key.spec_bytes()),
        )),
        r matches Ok(h) ==> {
            &&& h.authorization@ == "Bearer "@ + user_jwt@
            &&& h.timestamp@ == timestamp_bytes(timestamp as int)
            &&& h.device_id@.len() == 0
            &&& h.sign@ == hex_of(ecdsa_sign_of(sha256_of(timestamp_bytes(timestamp as int)), decode_hex(private_key.spec_bytes())))
        },
        r matches Err(e) ==> e == BillingError::Internal(InternalReason::NotConfigured),
{
    let key = match parse_hex_strict(private_key) {
        None => {
            return Err(BillingError::Internal(InternalReason::NotConfigured));
        },
        Some(k) => k,
    };
    let text = timestamp_text(timestamp);
    // The device id is empty: the signed text is the timestamp alone.
    let device_id: Vec<u8> = Vec::new();
    let digest = sha256(text.as_slice());
    match sign_compact(digest.as_slice(), key.as_slice()) {
        None => Err(BillingError::Internal(InternalReason::NotConfigured)),
        Some(sig) => {
            let mut authorization = String::from_str("Bearer ");
            authorization.append(user_jwt);
            Ok(AuthHeaders { authorization, timestamp: text, device_id, sign: hex_encode(sig.as_slice()) })
        },
    }
}

} // verus!
