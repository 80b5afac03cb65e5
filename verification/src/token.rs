//! The token codec: a compact signed credential built from a claims blob.
//!
//! A token is `base64url(header) "." base64url(claims) "." tag`, where the
//! tag is the HMAC-SHA256 of everything before the second dot, under a
//! signing key supplied by the caller, itself rendered in base64url. The
//! signing and the signature check are the only steps taken on trust, from
//! an outside cryptography crate; the framing, the claims blob and the
//! decision what a token means are verified here.
//!
//! Expiry is set ten years out by design: tokens double as durable share
//! links rather than short-lived sessions.

use vstd::prelude::*;

use crate::b64::{
    b64u_decode, b64u_encode, lemma_b64u_encode_ascii, spec_b64u_decode, spec_b64u_encode,
};
use crate::caps::Permissions;
use crate::claims::{Claims, encode_claims, spec_encode_claims};
use crate::codec_laws::lemma_token_validates;
use crate::parse::{claims_normalize, parse_claims, spec_parse_claims};
use vstd::string::StrSliceExecFns;
use vstd::string::StringExecFns;

verus! {

/// Why a credential failed to verify.
#[derive(Debug, Clone, PartialEq, Eq, Structural)]
pub enum VerifyError {
    /// Not shaped like a token, or its claims blob does not decode.
    Malformed,
    /// The tag is not the signature of this token under this key.
    SignatureMismatch,
    /// The token was valid once but its expiry has passed.
    Expired,
}

/// The base64url HMAC-SHA256 tag of a message under a key, as the signing
/// routine renders it. A fixed function of the key and message alone.
pub uninterp spec fn hs256_tag(key: Seq<u8>, message: Seq<u8>) -> Seq<char>;

/// Relies on jsonwebtoken's `crypto::sign` with HS256, which HMAC-signs the
/// message with the secret bytes and returns the base64url rendering of the
/// 32-byte digest; its source shows the HMAC arm never fails, so the unwrap
/// cannot panic, and the result is drawn from the base64url alphabet: ASCII
/// characters, none of them a dot.
#[verifier::external_body]
fn hs256_sign(key: &Vec<u8>, message: &Vec<u8>) -> (r: String)
    ensures
        r@ == hs256_tag(key@, message@),
        forall|i: int| 0 <= i < r@.len() ==> '\0' <= #[trigger] r@[i] <= '\u{7f}',
        forall|i: int| 0 <= i < r@.len() ==> #[trigger] r@[i] != '.',
{
    jsonwebtoken::crypto::sign(
        message.as_slice(),
        &jsonwebtoken::EncodingKey::from_secret(key.as_slice()),
        jsonwebtoken::Algorithm::HS256,
    ).unwrap()
}

/// Relies on jsonwebtoken's `crypto::verify` with HS256, whose source
/// re-signs the message and compares the given signature string with the
/// canonical tag byte for byte (so equality of the strings is exactly what
/// it reports), returning `Ok` in every HMAC case.
#[verifier::external_body]
fn hs256_verify(key: &Vec<u8>, message: &Vec<u8>, sig: &str) -> (r: bool)
    ensures
        r == (sig@ == hs256_tag(key@, message@)),
{
    jsonwebtoken::crypto::verify(
        sig,
        message.as_slice(),
        &jsonwebtoken::DecodingKey::from_secret(key.as_slice()),
        jsonwebtoken::Algorithm::HS256,
    ).unwrap_or(false)
}

/// Relies on chrono's `Utc::now`: the current time in seconds since the
/// epoch. chrono's documented date range (years within about ±262000) keeps
/// the value well inside two to the 44th either way.
#[verifier::external_body]
fn current_timestamp() -> (r: i64)
    ensures
        -0x100000000000 < r < 0x100000000000,
{
    chrono::Utc::now().timestamp()
}

/// Relies on `String::from_utf8`: bytes below 128 are valid UTF-8, one
/// character per byte, so the unwrap cannot panic.
#[verifier::external_body]
fn ascii_string(bytes: Vec<u8>) -> (r: String)
    requires
        forall|i: int| 0 <= i < bytes@.len() ==> bytes@[i] < 128,
    ensures
        r@ == bytes@.map(|i: int, b: u8| b as char),
{
    String::from_utf8(bytes).unwrap()
}

/// The fixed token header, `{"typ":"JWT","alg":"HS256"}`.
pub open spec fn header_json() -> Seq<u8> {
    seq![123u8, 34u8, 116u8, 121u8, 112u8, 34u8, 58u8, 34u8, 74u8, 87u8, 84u8, 34u8, 44u8, 34u8,
        97u8, 108u8, 103u8, 34u8, 58u8, 34u8, 72u8, 83u8, 50u8, 53u8, 54u8, 34u8, 125u8]
}

/// ASCII bytes read as characters.
pub open spec fn ascii_chars(bytes: Seq<u8>) -> Seq<char> {
    bytes.map(|i: int, b: u8| b as char)
}

/// The part of a token that is signed: encoded header, a dot, the encoded
/// claims blob.
pub open spec fn spec_message(c: Claims) -> Seq<u8> {
    spec_b64u_encode(header_json()) + seq![46u8] + spec_b64u_encode(spec_encode_claims(c))
}

/// The whole token for a claims value under a key.
pub open spec fn spec_token(key: Seq<u8>, c: Claims) -> Seq<char> {
    ascii_chars(spec_message(c)) + seq!['.'] + hs256_tag(key, spec_message(c))
}

/// How long an issued token lives: ten years of seconds.
pub const TOKEN_LIFETIME_SECS: u64 = 315360000;

/// The expiry written into a token issued at `now` (saturating at the far
/// end of 64 bits).
pub open spec fn spec_expiry(now: u64) -> u64 {
    if now + TOKEN_LIFETIME_SECS <= u64::MAX {
        (now + TOKEN_LIFETIME_SECS) as u64
    } else {
        u64::MAX
    }
}

/// The fixed header bytes.
fn header_bytes() -> (r: Vec<u8>)
    ensures
        r@ == header_json(),
{
    let mut out: Vec<u8> = Vec::new();
    out.push(123);
    out.push(34);
    out.push(116);
    out.push(121);
    out.push(112);
    out.push(34);
    out.push(58);
    out.push(34);
    out.push(74);
    out.push(87);
    out.push(84);
    out.push(34);
    out.push(44);
    out.push(34);
    out.push(97);
    out.push(108);
    out.push(103);
    out.push(34);
    out.push(58);
    out.push(34);
    out.push(72);
    out.push(83);
    out.push(50);
    out.push(53);
    out.push(54);
    out.push(34);
    out.push(125);
    proof {
        assert(out@ =~= header_json());
    }
    out
}

/// Issue a token for a group carrying the given capability set (or none,
/// meaning full access), expiring `TOKEN_LIFETIME_SECS` after `now`.
///
/// The token round-trips: at any instant it verifies, under the same key,
/// back to exactly these claims (a present capability set's fields all
/// resolved) until its expiry has passed, and to `Expired` after.
pub fn generate_token_at(
    key: &Vec<u8>,
    group_id: u128,
    permissions: Option<Permissions>,
    now: u64,
) -> (r: String)
    ensures
        r@ == spec_token(
            key@,
            Claims { group_id, exp: spec_expiry(now), permissions },
        ),
        forall|at: u64| #[trigger] spec_validate(key@, r@, at) == (if spec_expiry(now) < at {
            Err::<Claims, VerifyError>(VerifyError::Expired)
        } else {
            Ok::<Claims, VerifyError>(
                claims_normalize(Claims { group_id, exp: spec_expiry(now), permissions }),
            )
        }),
{
    let exp: u64 = if now <= u64::MAX - TOKEN_LIFETIME_SECS {
        now + TOKEN_LIFETIME_SECS
    } else {
        u64::MAX
    };
    let c = Claims { group_id, exp, permissions };
    let hdr = header_bytes();
    let payload = encode_claims(&c);
    let mut msg = b64u_encode(&hdr);
    msg.push(46);
    let mut pb = b64u_encode(&payload);
    msg.append(&mut pb);
    proof {
        lemma_b64u_encode_ascii(header_json());
        lemma_b64u_encode_ascii(spec_encode_claims(c));
        assert(msg@ =~= spec_message(c));
    }
    let sig = hs256_sign(key, &msg);
    let ghost msgv = msg@;
    let msg_str = ascii_string(msg);
    let tok = msg_str.concat(".").concat(sig.as_str());
    proof {
        reveal_strlit(".");
        assert(ascii_chars(msgv) =~= msgv.map(|i: int, b: u8| b as char));
        assert(tok@ =~= spec_token(key@, c));
        assert forall|at: u64| #[trigger] spec_validate(key@, tok@, at) == (if c.exp < at {
            Err::<Claims, VerifyError>(VerifyError::Expired)
        } else {
            Ok::<Claims, VerifyError>(claims_normalize(c))
        }) by {
            lemma_token_validates(key@, c, at);
        }
    }
    tok
}

/// Issue a token for a group carrying the given capability set, expiring
/// ten years from the current time. Whatever the clock returned, the result
/// is the canonical token for these claims with some expiry at least the
/// token lifetime.
pub fn generate_token(key: &Vec<u8>, group_id: u128, permissions: Option<Permissions>) -> (r:
    String)
    ensures
        exists|now: u64|
            r@ == #[trigger] spec_token(
                key@,
                Claims { group_id, exp: spec_expiry(now), permissions },
            ),
{
    let now_i = current_timestamp();
    let now_u: u64 = if now_i < 0 {
        0
    } else {
        now_i as u64
    };
    let r = generate_token_at(key, group_id, permissions, now_u);
    proof {
        assert(r@ == spec_token(
            key@,
            Claims { group_id, exp: spec_expiry(now_u), permissions },
        ));
    }
    r
}

/// The current time as seconds since the epoch, clamped to zero for a
/// clock set before the epoch. Bounded by chrono's documented date range.
pub fn now_seconds() -> (r: u64)
    ensures
        r < 0x100000000000,
{
    let now_i = current_timestamp();
    if now_i < 0 {
        0
    } else {
        now_i as u64
    }
}

/// Index of the last dot strictly before `upto`, or -1.
pub open spec fn sp_last_dot(s: Seq<u8>, upto: int) -> int
    decreases upto,
{
    if upto <= 0 {
        -1
    } else if s[upto - 1] == 46 {
        upto - 1
    } else {
        sp_last_dot(s, upto - 1)
    }
}

/// Find the last dot strictly before `upto`.
fn last_dot(v: &Vec<u8>, upto: usize) -> (r: Option<usize>)
    requires
        upto <= v@.len(),
    ensures
        match r {
            Some(d) => sp_last_dot(v@, upto as int) == d as int && d < upto,
            None => sp_last_dot(v@, upto as int) == -1,
        },
{
    let mut cur: usize = upto;
    loop
        invariant
            cur <= upto <= v@.len(),
            sp_last_dot(v@, upto as int) == sp_last_dot(v@, cur as int),
        decreases cur,
    {
        if cur == 0 {
            return None;
        }
        if v[cur - 1] == 46 {
            return Some(cur - 1);
        }
        cur = cur - 1;
    }
}

/// What a credential means at time `now`: the claims it carries, or the
/// first failure — not a token shape or an undecodable claims blob
/// (malformed), a tag that is not this token's signature under this key
/// (signature mismatch), or an expiry before `now` (expired).
pub open spec fn spec_validate(key: Seq<u8>, token: Seq<char>, now: u64) -> Result<
    Claims,
    VerifyError,
> {
    if !vstd::utf8::is_ascii_chars(token) {
        Err(VerifyError::Malformed)
    } else {
        let bytes = token.map(|i: int, c: char| c as u8);
        let d2 = sp_last_dot(bytes, bytes.len() as int);
        if d2 < 0 {
            Err(VerifyError::Malformed)
        } else {
            let d1 = sp_last_dot(bytes, d2);
            if d1 < 0 {
                Err(VerifyError::Malformed)
            } else {
                let msg = bytes.subrange(0, d2);
                let sig = token.subrange(d2 + 1, token.len() as int);
                if sig != hs256_tag(key, msg) {
                    Err(VerifyError::SignatureMismatch)
                } else {
                    match spec_b64u_decode(bytes.subrange(d1 + 1, d2)) {
                        None => Err(VerifyError::Malformed),
                        Some(pj) => match spec_parse_claims(pj) {
                            None => Err(VerifyError::Malformed),
                            Some(c) => if c.exp < now {
                                Err(VerifyError::Expired)
                            } else {
                                Ok(c)
                            },
                        },
                    }
                }
            }
        }
    }
}

/// Verify a credential against the key at time `now` and return its claims
/// or the failure `spec_validate` assigns it.
pub fn validate_token_at(key: &Vec<u8>, token: &str, now: u64) -> (r: Result<Claims, VerifyError>)
    ensures
        r == spec_validate(key@, token@, now),
{
    broadcast use vstd::string::is_ascii_spec_bytes;

    if !token.is_ascii() {
        return Err(VerifyError::Malformed);
    }
    let bytes: Vec<u8> = token.as_bytes_vec();
    proof {
        assert(bytes@ =~= token@.map(|i: int, c: char| c as u8));
    }
    let n = bytes.len();
    let d2 = match last_dot(&bytes, n) {
        Some(d) => d,
        None => {
            return Err(VerifyError::Malformed);
        },
    };
    let d1 = match last_dot(&bytes, d2) {
        Some(d) => d,
        None => {
            return Err(VerifyError::Malformed);
        },
    };
    // The signed part and the tag.
    let mut msg: Vec<u8> = Vec::new();
    let mut i: usize = 0;
    while i < d2
        invariant
            i <= d2 < n,
            n == bytes@.len(),
            msg@.len() == i,
            forall|x: int| 0 <= x < i ==> msg@[x] == bytes@[x],
        decreases d2 - i,
    {
        msg.push(bytes[i]);
        i += 1;
    }
    proof {
        assert(msg@ =~= bytes@.subrange(0, d2 as int));
        assert(token@.len() == bytes@.len());
    }
    let sig: &str = token.substring_ascii(d2 + 1, n);
    if !hs256_verify(key, &msg, sig) {
        return Err(VerifyError::SignatureMismatch);
    }
    // The claims blob.
    let mut pseg: Vec<u8> = Vec::new();
    let mut j: usize = d1 + 1;
    while j < d2
        invariant
            d1 + 1 <= j <= d2 < n,
            n == bytes@.len(),
            pseg@.len() == j - d1 - 1,
            forall|x: int| 0 <= x < pseg@.len() ==> pseg@[x] == bytes@[d1 + 1 + x],
        decreases d2 - j,
    {
        pseg.push(bytes[j]);
        j += 1;
    }
    proof {
        assert(pseg@ =~= bytes@.subrange(d1 as int + 1, d2 as int));
    }
    let pj = match b64u_decode(&pseg) {
        Some(pj) => pj,
        None => {
            return Err(VerifyError::Malformed);
        },
    };
    match parse_claims(&pj) {
        Some(c) => {
            if c.exp < now {
                Err(VerifyError::Expired)
            } else {
                Ok(c)
            }
        },
        None => Err(VerifyError::Malformed),
    }
}

/// Verify a credential against the key at the current time. Whatever the
/// clock returned, the result is what `spec_validate` assigns the token at
/// some instant.
pub fn validate_token(key: &Vec<u8>, token: &str) -> (r: Result<Claims, VerifyError>)
    ensures
        exists|now: u64| r == #[trigger] spec_validate(key@, token@, now),
{
    let now_i = current_timestamp();
    let now_u: u64 = if now_i < 0 {
        0
    } else {
        now_i as u64
    };
    let r = validate_token_at(key, token, now_u);
    proof {
        assert(r == spec_validate(key@, token@, now_u));
    }
    r
}

} // verus!
