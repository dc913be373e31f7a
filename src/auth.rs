//! Session tokens and password hashes.

use crate::error::AppError;
use argon2::password_hash::rand_core::OsRng;
use argon2::password_hash::{PasswordHash, PasswordHasher, PasswordVerifier, SaltString};
use argon2::Argon2;
use rand::Rng;
use vstd::prelude::*;

verus! {

/// The number of characters in a session token.
pub const TOKEN_LENGTH: usize = 30;

/// A character a session token may hold: an ASCII letter or digit.
pub open spec fn is_token_char(c: char) -> bool {
    ('A' <= c && c <= 'Z') || ('a' <= c && c <= 'z') || ('0' <= c && c <= '9')
}

/// Relies on rand's `thread_rng().gen_range(0..bound)`: a value drawn from
/// `0..bound`, which must not be empty.
#[verifier::external_body]
fn random_below(bound: usize) -> (r: usize)
    requires
        bound > 0,
    ensures
        r < bound,
{
    rand::thread_rng().gen_range(0..bound)
}

/// Relies on std's `FromIterator<char>` for `String`: the characters in order.
#[verifier::external_body]
fn string_from_chars(chars: Vec<char>) -> (r: String)
    ensures
        r@ == chars@,
{
    chars.into_iter().collect()
}

/// Relies on argon2 (`SaltString::generate` with the system's random
/// source, then `Argon2::default().hash_password`): the PHC string of the
/// hash of `password` under a fresh salt, or none when hashing failed. The
/// PHC string parses back, and `password` verifies against it.
#[verifier::external_body]
fn argon2_hash(password: &str) -> (r: Option<String>)
    ensures
        r matches Some(h) ==> phc_parses(h@) && argon2_accepts(h@, password@),
{
    let salt = SaltString::generate(&mut OsRng);
    match Argon2::default().hash_password(password.as_bytes(), &salt) {
        Ok(hash) => Some(hash.to_string()),
        Err(_) => None,
    }
}

/// Whether `hash` parses as a PHC string (argon2's `PasswordHash::new`).
pub uninterp spec fn phc_parses(hash: Seq<char>) -> bool;

/// Whether `password` matches the parsed PHC string `hash`
/// (`Argon2::default().verify_password`).
pub uninterp spec fn argon2_accepts(hash: Seq<char>, password: Seq<char>) -> bool;

/// Relies on argon2's `PasswordHash::new` and `verify_password`: none when
/// `hash` is no PHC string, else whether `password` matches it.
#[verifier::external_body]
fn argon2_check(hash: &str, password: &str) -> (r: Option<bool>)
    ensures
        r is None <==> !phc_parses(hash@),
        r matches Some(ok) ==> ok == argon2_accepts(hash@, password@),
{
    match PasswordHash::new(hash) {
        Ok(parsed) => Some(Argon2::default().verify_password(password.as_bytes(), &parsed).is_ok()),
        Err(_) => None,
    }
}

/// The character at `i` of the token alphabet: the capitals, then the small
/// letters, then the digits.
fn token_char(i: usize) -> (c: char)
    requires
        i < 62,
    ensures
        is_token_char(c),
{
    let b: u8 = i as u8;
    if b < 26 {
        (65u8 + b) as char
    } else if b < 52 {
        (97u8 + (b - 26)) as char
    } else {
        (48u8 + (b - 52)) as char
    }
}

/// A fresh random session token: [`TOKEN_LENGTH`] ASCII letters and digits.
pub fn generate_session_token() -> (r: String)
    ensures
        r@.len() == TOKEN_LENGTH,
        forall|i: int| 0 <= i < r@.len() ==> is_token_char(#[trigger] r@[i]),
{
    let mut chars: Vec<char> = Vec::new();
    let mut n: usize = 0;
    while n < TOKEN_LENGTH
        invariant
            n <= TOKEN_LENGTH,
            chars.len() == n,
            forall|i: int| 0 <= i < chars.len() ==> is_token_char(#[trigger] chars@[i]),
        decreases TOKEN_LENGTH - n,
    {
        let idx = random_below(62);
        chars.push(token_char(idx));
        n = n + 1;
    }
    string_from_chars(chars)
}

/// The outcome of hashing: a hash, or an internal error when there is none.
pub fn hash_outcome(hashed: Option<String>) -> (r: Result<String, AppError>)
    ensures
        match hashed {
            Some(h) => r == Ok::<String, AppError>(h),
            None => r == Err::<String, AppError>(AppError::InternalServerError),
        },
{
    match hashed {
        Some(h) => Ok(h),
        None => Err(AppError::InternalServerError),
    }
}

/// The argon2id PHC string of `password` under a fresh random salt; an
/// internal error when hashing fails. A hash returned parses, and
/// `password` verifies against it.
pub fn hash_password(password: &str) -> (r: Result<String, AppError>)
    ensures
        r matches Err(e) ==> e == AppError::InternalServerError,
        r matches Ok(h) ==> phc_parses(h@) && argon2_accepts(h@, password@),
{
    hash_outcome(argon2_hash(password))
}

/// The outcome of checking a password: an internal error when the stored
/// hash did not parse, else whether the password matched.
pub fn verification_outcome(checked: Option<bool>) -> (r: Result<bool, AppError>)
    ensures
        match checked {
            Some(ok) => r == Ok::<bool, AppError>(ok),
            None => r == Err::<bool, AppError>(AppError::InternalServerError),
        },
{
    match checked {
        Some(ok) => Ok(ok),
        None => Err(AppError::InternalServerError),
    }
}

/// Whether `input_password` matches the stored PHC string
/// `hashed_password`; an internal error when that string does not parse.
pub fn verify_password(hashed_password: &str, input_password: &str) -> (r: Result<bool, AppError>)
    ensures
        !phc_parses(hashed_password@) ==> r == Err::<bool, AppError>(AppError::InternalServerError),
        phc_parses(hashed_password@) ==> r == Ok::<bool, AppError>(
            argon2_accepts(hashed_password@, input_password@),
        ),
{
    verification_outcome(argon2_check(hashed_password, input_password))
}

} // verus!
