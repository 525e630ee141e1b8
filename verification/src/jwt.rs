use vstd::prelude::*;

use crate::b64::{b64_decode, b64_encode, decode, encode_into, lemma_b64_round_trip,
    lemma_encode_in_alphabet};
use crate::errors::ApiError;
use crate::numfmt::{ascii_to_string, dec_repr, lemma_parse_renders, parse_i64_at, parse_int_at,
    push_i64};
use vstd::utf8::encode_utf8;

verus! {

/// What a credential carries: the subject principal, when it was issued and
/// when it expires, both as UTC timestamps in seconds. Authorization never
/// reads anything else from a credential; role-grants are always fetched
/// live.
#[derive(Clone, Copy, Debug, PartialEq, Eq, Structural)]
pub struct Claims {
    pub sub: i32,
    pub iat: i64,
    pub exp: i64,
}

/// A credential lives for seven days from issuance.
pub const CREDENTIAL_LIFETIME_SECONDS: i64 = 604800;

pub open spec fn lit_sub() -> Seq<u8> {
    seq![123u8, 34u8, 115u8, 117u8, 98u8, 34u8, 58u8]
}

pub open spec fn lit_iat() -> Seq<u8> {
    seq![44u8, 34u8, 105u8, 97u8, 116u8, 34u8, 58u8]
}

pub open spec fn lit_exp() -> Seq<u8> {
    seq![44u8, 34u8, 101u8, 120u8, 112u8, 34u8, 58u8]
}

/// The canonical payload of a credential: a JSON object with the subject,
/// issued-at and expiry fields, in that order, with no whitespace.
pub open spec fn render_claims(c: Claims) -> Seq<u8> {
    lit_sub() + dec_repr(c.sub as int) + lit_iat() + dec_repr(c.iat as int) + lit_exp() + dec_repr(
        c.exp as int,
    ) + seq![125u8]
}

pub open spec fn matches_at(s: Seq<u8>, i: int, lit: Seq<u8>) -> bool {
    0 <= i && i + lit.len() <= s.len() && s.subrange(i, i + lit.len()) == lit
}

/// The strict parse of a canonical payload: exactly the strings
/// `render_claims` produces, with each field in the range of its carrier
/// type, are accepted.
pub open spec fn parse_claims(s: Seq<u8>) -> Option<Claims> {
    if !matches_at(s, 0, lit_sub()) {
        None
    } else {
        match parse_int_at(s, 7) {
            None => None,
            Some((sub, i)) => if !(i32::MIN <= sub <= i32::MAX) {
                None
            } else if !matches_at(s, i, lit_iat()) {
                None
            } else {
                match parse_int_at(s, i + 7) {
                    None => None,
                    Some((iat, j)) => if !(i64::MIN <= iat <= i64::MAX) {
                        None
                    } else if !matches_at(s, j, lit_exp()) {
                        None
                    } else {
                        match parse_int_at(s, j + 7) {
                            None => None,
                            Some((exp, k)) => if !(i64::MIN <= exp <= i64::MAX) {
                                None
                            } else if k + 1 == s.len() && s[k] == 125u8 {
                                Some(Claims { sub: sub as i32, iat: iat as i64, exp: exp as i64 })
                            } else {
                                None
                            },
                        }
                    },
                }
            },
        }
    }
}

/// The base64url text of the HMAC-SHA256 signature that jsonwebtoken
/// computes over a message under a secret. Deterministic in both arguments;
/// nothing further is assumed of its value beyond its alphabet.
pub uninterp spec fn hs256_sig(secret: Seq<u8>, msg: Seq<u8>) -> Seq<u8>;

/// Relies on jsonwebtoken::crypto::sign with Algorithm::HS256 and a key
/// built by EncodingKey::from_secret. Per that crate's source, the HS256
/// path computes HMAC-SHA256 with the hmac crate, which accepts a key of
/// any length and cannot fail, and returns the signature in the padding-free
/// URL-safe base64 alphabet; with exactly one crypto backend feature
/// enabled, the provider lookup cannot fail either.
#[verifier::external_body]
fn sign_hs256(secret: &Vec<u8>, msg: &Vec<u8>) -> (sig: Vec<u8>)
    ensures
        sig@ == hs256_sig(secret@, msg@),
        forall|i: int|
            0 <= i < sig@.len() ==> (#[trigger] crate::b64::b64_inv(sig@[i])) is Some,
{
    jsonwebtoken::crypto::sign(
        msg,
        &jsonwebtoken::EncodingKey::from_secret(secret),
        jsonwebtoken::Algorithm::HS256,
    )
        .expect("HMAC signing is infallible")
        .into_bytes()
}

/// The full token for a set of claims under a secret: the base64url
/// payload, a dot, and the signature text over that payload.
pub open spec fn token_bytes_for(secret: Seq<u8>, c: Claims) -> Seq<u8> {
    let m = b64_encode(render_claims(c));
    m + seq![46u8] + hs256_sig(secret, m)
}

/// The position of the first dot in `s`, or the length if there is none.
pub open spec fn first_dot(s: Seq<u8>) -> int {
    first_dot_from(s, 0)
}

pub open spec fn first_dot_from(s: Seq<u8>, i: int) -> int
    decreases s.len() - i,
{
    if 0 <= i < s.len() {
        if s[i] == 46u8 {
            i
        } else {
            first_dot_from(s, i + 1)
        }
    } else {
        i
    }
}

/// What verifying a token under a secret at a given time yields: the token
/// must split at its first dot into a strictly canonical payload and a
/// signature; an expired credential is rejected before its signature is
/// even considered; an unexpired one is accepted exactly when the signature
/// matches.
pub open spec fn validate_spec(secret: Seq<u8>, t: Seq<u8>, now: i64) -> Result<
    Claims,
    ApiError,
> {
    let d = first_dot(t);
    if d >= t.len() {
        Err(ApiError::InvalidCredential)
    } else {
        let msg = t.subrange(0, d);
        let sig = t.subrange(d + 1, t.len() as int);
        match b64_decode(msg) {
            None => Err(ApiError::InvalidCredential),
            Some(payload) => match parse_claims(payload) {
                None => Err(ApiError::InvalidCredential),
                Some(c) => if now > c.exp {
                    Err(ApiError::InvalidCredential)
                } else if sig != hs256_sig(secret, msg) {
                    Err(ApiError::InvalidCredential)
                } else {
                    Ok(c)
                },
            },
        }
    }
}

/// Authentication from an optional cookie value: a missing cookie is an
/// invalid credential, a present one is verified.
pub open spec fn check_auth_spec(secret: Seq<u8>, token: Option<Seq<u8>>, now: i64) -> Result<
    Claims,
    ApiError,
> {
    match token {
        None => Err(ApiError::InvalidCredential),
        Some(tb) => validate_spec(secret, tb, now),
    }
}

/// Renders the canonical payload of a set of claims.
fn render_claims_bytes(c: &Claims) -> (r: Vec<u8>)
    ensures
        r@ == render_claims(*c),
{
    let mut out: Vec<u8> = Vec::new();
    out.push(123);
    out.push(34);
    out.push(115);
    out.push(117);
    out.push(98);
    out.push(34);
    out.push(58);
    assert(out@ =~= lit_sub());
    push_i64(c.sub as i64, &mut out);
    out.push(44);
    out.push(34);
    out.push(105);
    out.push(97);
    out.push(116);
    out.push(34);
    out.push(58);
    push_i64(c.iat, &mut out);
    out.push(44);
    out.push(34);
    out.push(101);
    out.push(120);
    out.push(112);
    out.push(34);
    out.push(58);
    push_i64(c.exp, &mut out);
    out.push(125);
    assert(out@ =~= render_claims(*c));
    out
}

/// Whether `lit` occurs in `s` at position `i`.
fn bytes_match_at(s: &Vec<u8>, i: usize, lit: &Vec<u8>) -> (r: bool)
    requires
        i <= s@.len(),
    ensures
        r == matches_at(s@, i as int, lit@),
{
    let m = s.len();
    if m - i < lit.len() {
        assert(!matches_at(s@, i as int, lit@));
        return false;
    }
    let n = lit.len();
    let mut k: usize = 0;
    while k < n
        invariant
            k <= n,
            i + n <= m,
            m == s@.len(),
            n == lit@.len(),
            forall|j: int| 0 <= j < k ==> s@[i + j] == lit@[j],
        decreases n - k,
    {
        if s[i + k] != lit[k] {
            assert(s@.subrange(i as int, i as int + lit@.len() as int)[k as int] != lit@[k as int]);
            return false;
        }
        k += 1;
    }
    assert(s@.subrange(i as int, i as int + lit@.len() as int) =~= lit@);
    true
}

/// Whether two byte strings are equal.
fn bytes_eq(a: &Vec<u8>, b: &Vec<u8>) -> (r: bool)
    ensures
        r == (a@ == b@),
{
    if a.len() != b.len() {
        assert(a@ != b@);
        return false;
    }
    let n = a.len();
    let mut k: usize = 0;
    while k < n
        invariant
            k <= n,
            n == a@.len(),
            n == b@.len(),
            forall|j: int| 0 <= j < k ==> a@[j] == b@[j],
        decreases n - k,
    {
        if a[k] != b[k] {
            return false;
        }
        k += 1;
    }
    assert(a@ =~= b@);
    true
}

/// Copies the range `[a, b)` of a byte string.
fn subvec(s: &Vec<u8>, a: usize, b: usize) -> (r: Vec<u8>)
    requires
        a <= b <= s@.len(),
    ensures
        r@ == s@.subrange(a as int, b as int),
{
    let mut out: Vec<u8> = Vec::new();
    let mut k: usize = a;
    while k < b
        invariant
            a <= k <= b <= s@.len(),
            out@ == s@.subrange(a as int, k as int),
        decreases b - k,
    {
        out.push(s[k]);
        assert(out@ =~= s@.subrange(a as int, k as int + 1));
        k += 1;
    }
    out
}

/// Parses a canonical payload, as `parse_claims` describes.
fn parse_claims_bytes(s: &Vec<u8>) -> (r: Option<Claims>)
    ensures
        r == parse_claims(s@),
{
    let n = s.len();
    let lsub: Vec<u8> = vec![123, 34, 115, 117, 98, 34, 58];
    let liat: Vec<u8> = vec![44, 34, 105, 97, 116, 34, 58];
    let lexp: Vec<u8> = vec![44, 34, 101, 120, 112, 34, 58];
    assert(lsub@ =~= lit_sub());
    assert(liat@ =~= lit_iat());
    assert(lexp@ =~= lit_exp());
    if !bytes_match_at(s, 0, &lsub) {
        return None;
    }
    let sub_parse = parse_i64_at(s, 7);
    match sub_parse {
        None => None,
        Some((sub, i)) => {
            if sub < i32::MIN as i64 || sub > i32::MAX as i64 {
                return None;
            }
            if !bytes_match_at(s, i, &liat) {
                return None;
            }
            let iat_parse = parse_i64_at(s, i + 7);
            match iat_parse {
                None => None,
                Some((iat, j)) => {
                    if !bytes_match_at(s, j, &lexp) {
                        return None;
                    }
                    let exp_parse = parse_i64_at(s, j + 7);
                    match exp_parse {
                        None => None,
                        Some((exp, k)) => {
                            if k < n && k + 1 == n && s[k] == 125 {
                                Some(Claims { sub: sub as i32, iat, exp })
                            } else {
                                None
                            }
                        },
                    }
                },
            }
        },
    }
}

/// Issues a credential for a principal: subject, issued-at now, expiry
/// seven days later, signed under the secret.
pub fn create_jwt(secret: &Vec<u8>, user_id: i32, now: i64) -> (r: Result<String, ApiError>)
    requires
        now <= i64::MAX - CREDENTIAL_LIFETIME_SECONDS,
    ensures
        r matches Ok(t) ==> encode_utf8(t@) == token_bytes_for(
            secret@,
            (Claims {
                sub: user_id,
                iat: now,
                exp: (now + CREDENTIAL_LIFETIME_SECONDS) as i64,
            }),
        ),
        r is Ok,
{
    let claims = Claims { sub: user_id, iat: now, exp: now + CREDENTIAL_LIFETIME_SECONDS };
    let payload = render_claims_bytes(&claims);
    let mut token: Vec<u8> = Vec::new();
    encode_into(&payload, &mut token);
    let ghost msg = token@;
    let sig = sign_hs256(secret, &token);
    token.push(46);
    let mut k: usize = 0;
    let n = sig.len();
    while k < n
        invariant
            k <= n,
            n == sig@.len(),
            token@ == msg + seq![46u8] + sig@.subrange(0, k as int),
        decreases n - k,
    {
        token.push(sig[k]);
        assert(token@ =~= msg + seq![46u8] + sig@.subrange(0, k as int + 1));
        k += 1;
    }
    proof {
        assert(sig@.subrange(0, sig@.len() as int) =~= sig@);
        lemma_encode_in_alphabet(render_claims(claims));
        assert forall|i: int| 0 <= i < token@.len() implies token@[i] < 128 by {
            if i < msg.len() {
                assert(token@[i] == msg[i]);
                assert(crate::b64::b64_inv(msg[i]) is Some);
            } else if i == msg.len() {
                assert(token@[i] == 46u8);
            } else {
                assert(token@[i] == sig@[i - msg.len() - 1]);
                assert(crate::b64::b64_inv(sig@[i - msg.len() - 1]) is Some);
            }
        }
    }
    Ok(ascii_to_string(token))
}

/// Verifies a token, as `validate_spec` describes: the result is exactly
/// `Ok` for an unexpired, well-signed, canonical token, and names the
/// claims it carries.
pub fn validate_jwt(secret: &Vec<u8>, token: &str, now: i64) -> (r: Result<Claims, ApiError>)
    ensures
        r == validate_spec(secret@, encode_utf8(token@), now),
{
    let bv = token.as_bytes_vec();
    let ghost tb = bv@;
    let n = bv.len();
    // find the first dot
    let mut d: usize = 0;
    while d < n && bv[d] != 46
        invariant
            d <= n,
            n == tb.len(),
            tb == bv@,
            forall|j: int| 0 <= j < d ==> tb[j] != 46u8,
        decreases n - d,
    {
        d += 1;
    }
    proof {
        lemma_first_dot_from(tb, 0, d as int);
    }
    if d >= n {
        return Err(ApiError::InvalidCredential);
    }
    let msg = subvec(&bv, 0, d);
    let sig = subvec(&bv, d + 1, n);
    let payload = match decode(&msg) {
        None => {
            return Err(ApiError::InvalidCredential);
        },
        Some(p) => p,
    };
    let claims = match parse_claims_bytes(&payload) {
        None => {
            return Err(ApiError::InvalidCredential);
        },
        Some(c) => c,
    };
    if now > claims.exp {
        return Err(ApiError::InvalidCredential);
    }
    let expected = sign_hs256(secret, &msg);
    if !bytes_eq(&sig, &expected) {
        return Err(ApiError::InvalidCredential);
    }
    Ok(claims)
}

/// A dot-free prefix pins where the first dot is.
proof fn lemma_first_dot_from(s: Seq<u8>, a: int, b: int)
    requires
        0 <= a <= b <= s.len(),
        forall|j: int| a <= j < b ==> s[j] != 46u8,
        b == s.len() || s[b] == 46u8,
    ensures
        first_dot_from(s, a) == b,
    decreases b - a,
{
    if a < b {
        lemma_first_dot_from(s, a + 1, b);
    }
}

/// Authenticates an optional cookie value, as `check_auth_spec` describes.
pub fn check_auth(secret: &Vec<u8>, token: Option<&String>, now: i64) -> (r: Result<
    Claims,
    ApiError,
>)
    ensures
        r == check_auth_spec(
            secret@,
            match token {
                Some(t) => Some(encode_utf8(t@)),
                None => None,
            },
            now,
        ),
{
    match token {
        None => Err(ApiError::InvalidCredential),
        Some(t) => validate_jwt(secret, t.as_str(), now),
    }
}

/// A strictly rendered payload parses back to the claims it renders.
pub proof fn lemma_parse_render_claims(c: Claims)
    ensures
        parse_claims(render_claims(c)) == Some(c),
{
    let s = render_claims(c);
    let r1 = dec_repr(c.sub as int);
    let r2 = dec_repr(c.iat as int);
    let r3 = dec_repr(c.exp as int);
    let p1 = 7 + r1.len() as int;
    let p2 = p1 + 7;
    let p3 = p2 + r2.len() as int;
    let p4 = p3 + 7;
    let p5 = p4 + r3.len() as int;
    assert(s.len() == p5 + 1);
    assert(s.subrange(0, 7) =~= lit_sub());
    assert forall|x: int| 0 <= x < r1.len() implies s[7 + x] == r1[x] by {}
    assert(s.subrange(7, p1) =~= r1);
    assert(s[p1] == 44u8);
    lemma_parse_renders(s, 7, c.sub as int);
    assert(s.subrange(p1, p2) =~= lit_iat());
    assert forall|x: int| 0 <= x < r2.len() implies s[p2 + x] == r2[x] by {}
    assert(s.subrange(p2, p3) =~= r2);
    assert(s[p3] == 44u8);
    lemma_parse_renders(s, p2, c.iat as int);
    assert(s.subrange(p3, p4) =~= lit_exp());
    assert forall|x: int| 0 <= x < r3.len() implies s[p4 + x] == r3[x] by {}
    assert(s.subrange(p4, p5) =~= r3);
    assert(s[p5] == 125u8);
    lemma_parse_renders(s, p4, c.exp as int);
    assert(matches_at(s, 0, lit_sub()));
    assert(matches_at(s, p1, lit_iat()));
    assert(matches_at(s, p3, lit_exp()));
}

/// A token of the credential format splits at the dot that ends its
/// payload, whatever its signature part holds.
proof fn lemma_split_token(c: Claims, sig: Seq<u8>)
    ensures
        ({
            let m = b64_encode(render_claims(c));
            let t = m + seq![46u8] + sig;
            first_dot(t) == m.len() && t.subrange(0, m.len() as int) == m && t.subrange(
                m.len() as int + 1,
                t.len() as int,
            ) == sig
        }),
{
    let m = b64_encode(render_claims(c));
    let t = m + seq![46u8] + sig;
    lemma_encode_in_alphabet(render_claims(c));
    assert forall|j: int| 0 <= j < m.len() implies t[j] != 46u8 by {
        assert(t[j] == m[j]);
        assert(crate::b64::b64_inv(m[j]) is Some);
    }
    assert(t[m.len() as int] == 46u8);
    lemma_first_dot_from(t, 0, m.len() as int);
    assert(t.subrange(0, m.len() as int) =~= m);
    assert(t.subrange(m.len() as int + 1, t.len() as int) =~= sig);
}

/// An issued credential authenticates as its claims until its expiry, and
/// not after: verifying the exact token the library issues yields the
/// claims when `now` has not passed the expiry, and an invalid-credential
/// failure when it has.
pub proof fn lemma_issued_token_valid(secret: Seq<u8>, c: Claims, now: i64)
    ensures
        validate_spec(secret, token_bytes_for(secret, c), now) == if now > c.exp {
            Err::<Claims, ApiError>(ApiError::InvalidCredential)
        } else {
            Ok::<Claims, ApiError>(c)
        },
{
    let m = b64_encode(render_claims(c));
    lemma_split_token(c, hs256_sig(secret, m));
    lemma_b64_round_trip(render_claims(c));
    lemma_parse_render_claims(c);
}

/// A credential past its expiry is rejected as an invalid credential
/// whatever stands in its signature part: expiry is decided before the
/// signature is even compared.
pub proof fn lemma_expired_rejected_any_signature(
    secret: Seq<u8>,
    c: Claims,
    sig: Seq<u8>,
    now: i64,
)
    requires
        now > c.exp,
    ensures
        validate_spec(secret, b64_encode(render_claims(c)) + seq![46u8] + sig, now) == Err::<
            Claims,
            ApiError,
        >(ApiError::InvalidCredential),
{
    lemma_split_token(c, sig);
    lemma_b64_round_trip(render_claims(c));
    lemma_parse_render_claims(c);
}

/// Verification never accepts an expired credential: whatever the token,
/// acceptance implies the expiry lies at or after `now`.
pub proof fn lemma_no_expired_acceptance(secret: Seq<u8>, t: Seq<u8>, now: i64)
    ensures
        validate_spec(secret, t, now) matches Ok(c) ==> now <= c.exp && validate_spec(
            secret,
            t,
            now,
        ) == Ok::<Claims, ApiError>(c),
{
}

} // verus!
