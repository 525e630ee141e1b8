use vstd::prelude::*;

use crate::dto::{AuthResponse, LoginRequest, RegisterRequest};
use crate::errors::ApiError;
use crate::jwt::{create_jwt, token_bytes_for, Claims, CREDENTIAL_LIFETIME_SECONDS};
use crate::models::User;
use crate::store::{same_assignments, same_classrooms, same_files, same_grants, same_store,
    same_submissions, Store};
use vstd::utf8::encode_utf8;

verus! {

/// Whether a password matches a bcrypt digest: the pure relation that
/// bcrypt::verify decides. Deterministic in both arguments; which digest
/// bcrypt::hash produces for a password is not, since each call draws a
/// fresh salt, but every digest it produces matches that password.
pub uninterp spec fn bcrypt_matches(plain: Seq<char>, digest: Seq<char>) -> bool;

/// Whether a digest is in bcrypt's format, so that bcrypt::verify can
/// decide it at all: verify fails exactly when the digest does not parse
/// or carries a cost outside bcrypt's range, a function of the digest
/// alone. Every digest bcrypt::hash returns is in the format.
pub uninterp spec fn bcrypt_digest_ok(digest: Seq<char>) -> bool;

#[verifier::external_type_specification]
#[verifier::external_body]
pub struct ExBcryptError(bcrypt::BcryptError);

/// Relies on bcrypt::hash with DEFAULT_COST: it hashes the password under a
/// fresh random salt, and bcrypt::verify accepts the password against the
/// digest it returns, since verify re-hashes under the salt the digest
/// carries and that digest is in bcrypt's own format.
#[verifier::external_body]
fn hash_password(plain: &String) -> (r: Result<String, bcrypt::BcryptError>)
    ensures
        r matches Ok(digest) ==> bcrypt_matches(plain@, digest@) && bcrypt_digest_ok(digest@),
{
    bcrypt::hash(plain, bcrypt::DEFAULT_COST)
}

/// Relies on bcrypt::verify: whether the password matches the digest, a
/// deterministic function of the two; it succeeds exactly when the digest
/// is in bcrypt's format, which depends on the digest alone.
#[verifier::external_body]
fn verify_password(plain: &String, digest: &String) -> (r: Result<bool, bcrypt::BcryptError>)
    ensures
        r is Ok <==> bcrypt_digest_ok(digest@),
        r matches Ok(m) ==> m == bcrypt_matches(plain@, digest@),
{
    bcrypt::verify(plain, digest)
}

/// Registers a new principal: rejects a duplicate email with a conflict,
/// hashes the password, stores the row, and issues a credential. The only
/// failures besides the conflict are the hashing primitive failing or the
/// id space being exhausted, both internal.
pub fn register(store: &mut Store, secret: &Vec<u8>, request: RegisterRequest, now: i64) -> (r:
    Result<(AuthResponse, String), ApiError>)
    requires
        old(store).wf(),
        now <= i64::MAX - CREDENTIAL_LIFETIME_SECONDS,
    ensures
        final(store).wf(),
        r == Err::<(AuthResponse, String), ApiError>(ApiError::Conflict) <==> old(
            store,
        ).has_user_email(request.email@),
        r matches Err(e) ==> same_store(*old(store), *final(store)) && (e == ApiError::Conflict
            || e == ApiError::InternalFailure),
        r matches Ok((resp, token)) ==> {
            &&& final(store).users@ == old(store).users@.push(
                (User {
                    id: old(store).next_user_id,
                    name: request.name,
                    email: request.email,
                    password_hash: final(store).users@.last().password_hash,
                    created_at: now,
                }),
            )
            &&& bcrypt_matches(request.password@, final(store).users@.last().password_hash@)
            &&& bcrypt_digest_ok(final(store).users@.last().password_hash@)
            &&& final(store).next_user_id == old(store).next_user_id + 1
            &&& resp.user_id == old(store).next_user_id
            &&& resp.email@ == request.email@
            &&& encode_utf8(token@) == token_bytes_for(
                secret@,
                (Claims {
                    sub: old(store).next_user_id,
                    iat: now,
                    exp: (now + CREDENTIAL_LIFETIME_SECONDS) as i64,
                }),
            )
            &&& same_classrooms(*old(store), *final(store))
            &&& same_grants(*old(store), *final(store))
            &&& same_assignments(*old(store), *final(store))
            &&& same_submissions(*old(store), *final(store))
            &&& same_files(*old(store), *final(store))
        },
{
    if store.find_user_by_email(&request.email).is_some() {
        return Err(ApiError::Conflict);
    }
    let hashed = match hash_password(&request.password) {
        Ok(h) => h,
        Err(_) => {
            return Err(ApiError::InternalFailure);
        },
    };
    if store.next_user_id == i32::MAX {
        return Err(ApiError::InternalFailure);
    }
    let email_copy = clone_string(&request.email);
    let id = store.insert_user(request.name, request.email, hashed, now);
    let token = match create_jwt(secret, id, now) {
        Ok(t) => t,
        Err(_) => {
            return Err(ApiError::InternalFailure);
        },
    };
    Ok((AuthResponse { user_id: id, email: email_copy }, token))
}

/// Logs a principal in: an unknown email and a wrong password yield the
/// same invalid-credential failure, so the response does not reveal
/// whether the email is registered; on a matching password a fresh
/// credential is issued for the stored principal. The one internal
/// failure is a stored digest outside bcrypt's format, which registration
/// never produces.
pub fn login(store: &Store, secret: &Vec<u8>, request: LoginRequest, now: i64) -> (r: Result<
    (AuthResponse, String),
    ApiError,
>)
    requires
        store.wf(),
        now <= i64::MAX - CREDENTIAL_LIFETIME_SECONDS,
    ensures
        !store.has_user_email(request.email@) ==> r == Err::<(AuthResponse, String), ApiError>(
            ApiError::InvalidCredential,
        ),
        store.has_user_email(request.email@) ==> {
            let u = store.users@[store.user_email_idx(request.email@)];
            {
                &&& !bcrypt_digest_ok(u.password_hash@) ==> r == Err::<
                    (AuthResponse, String),
                    ApiError,
                >(ApiError::InternalFailure)
                &&& bcrypt_digest_ok(u.password_hash@) && bcrypt_matches(
                    request.password@,
                    u.password_hash@,
                ) ==> r is Ok
                &&& bcrypt_digest_ok(u.password_hash@) && !bcrypt_matches(
                    request.password@,
                    u.password_hash@,
                ) ==> r == Err::<(AuthResponse, String), ApiError>(ApiError::InvalidCredential)
                &&& r matches Ok((resp, token)) ==> {
                    &&& bcrypt_matches(request.password@, u.password_hash@)
                    &&& resp.user_id == u.id
                    &&& resp.email@ == u.email@
                    &&& encode_utf8(token@) == token_bytes_for(
                        secret@,
                        (Claims {
                            sub: u.id,
                            iat: now,
                            exp: (now + CREDENTIAL_LIFETIME_SECONDS) as i64,
                        }),
                    )
                }
            }
        },
{
    let idx = match store.find_user_by_email(&request.email) {
        Some(i) => i,
        None => {
            return Err(ApiError::InvalidCredential);
        },
    };
    let matches = match verify_password(&request.password, &store.users[idx].password_hash) {
        Ok(m) => m,
        Err(_) => {
            return Err(ApiError::InternalFailure);
        },
    };
    if !matches {
        return Err(ApiError::InvalidCredential);
    }
    let user_id = store.users[idx].id;
    let email = clone_string(&store.users[idx].email);
    let token = match create_jwt(secret, user_id, now) {
        Ok(t) => t,
        Err(_) => {
            return Err(ApiError::InternalFailure);
        },
    };
    Ok((AuthResponse { user_id, email }, token))
}

/// A copy of a string with the same contents.
pub fn clone_string(s: &String) -> (r: String)
    ensures
        r == *s,
{
    s.clone()
}

} // verus!
