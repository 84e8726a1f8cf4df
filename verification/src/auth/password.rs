//! Password hashing.

use vstd::prelude::*;
use rand::Rng;
use crate::error::AppError;

verus! {

/// Work factor handed to bcrypt.
pub const HASH_COST: u32 = 12;

/// Number of characters in a salt.
pub const SALT_LENGTH: usize = 16;

/// The characters a salt is drawn from: upper case, lower case, digits.
pub open spec fn salt_alphabet() -> Seq<char> {
    "ABCDEFGHIJKLMNOPQRSTUVWXYZabcdefghijklmnopqrstuvwxyz0123456789"@
}

/// `salt` has the right length and only characters of the alphabet.
pub open spec fn is_salt(salt: Seq<char>) -> bool {
    salt.len() == SALT_LENGTH && forall|i: int|
        0 <= i < salt.len() ==> salt_alphabet().contains(#[trigger] salt[i])
}

/// What `bcrypt::verify` answers for a password and a stored hash: whether
/// they match, or `None` when the hash cannot be read.
pub uninterp spec fn bcrypt_verdict(password: Seq<char>, hash: Seq<char>) -> Option<bool>;

/// `bcrypt::verify`: checks `password` against `hash`. The answer depends on
/// the two texts alone; an error of the call is returned as `None`.
#[verifier::external_body]
fn bcrypt_verify(password: &str, hash: &str) -> (verdict: Option<bool>)
    ensures
        verdict == bcrypt_verdict(password@, hash@),
{
    bcrypt::verify(password, hash).ok()
}

/// `bcrypt::hash`: hashes `password` under a fresh random salt. Nothing is
/// claimed of the hash; an error of the call is returned as `None`.
#[verifier::external_body]
fn bcrypt_hash(password: &str, cost: u32) -> (hashed: Option<String>) {
    bcrypt::hash(password, cost).ok()
}

/// `rand::Rng::gen_range` on the thread's generator: a number below `bound`.
#[verifier::external_body]
fn random_below(bound: usize) -> (index: usize)
    requires
        bound > 0,
    ensures
        index < bound,
{
    rand::thread_rng().gen_range(0..bound)
}

/// The salt spelled by `indices` into the alphabet.
pub fn salt_from_indices(indices: &Vec<usize>) -> (salt: String)
    requires
        indices@.len() == SALT_LENGTH,
        forall|i: int| 0 <= i < indices@.len() ==> (#[trigger] indices@[i]) < 62,
    ensures
        is_salt(salt@),
        forall|i: int|
            0 <= i < SALT_LENGTH ==> (#[trigger] salt@[i]) == salt_alphabet()[indices@[i] as int],
{
    let alphabet = "ABCDEFGHIJKLMNOPQRSTUVWXYZabcdefghijklmnopqrstuvwxyz0123456789";
    proof {
        reveal_strlit("ABCDEFGHIJKLMNOPQRSTUVWXYZabcdefghijklmnopqrstuvwxyz0123456789");
    }
    let mut salt = String::new();
    let mut i: usize = 0;
    while i < indices.len()
        invariant
            i <= indices@.len(),
            indices@.len() == SALT_LENGTH,
            alphabet@ == salt_alphabet(),
            alphabet@.len() == 62,
            alphabet.is_ascii(),
            forall|k: int| 0 <= k < indices@.len() ==> (#[trigger] indices@[k]) < 62,
            salt@.len() == i,
            forall|k: int| 0 <= k < i ==> (#[trigger] salt@[k]) == salt_alphabet()[indices@[k] as int],
        decreases indices@.len() - i,
    {
        let at = indices[i];
        let piece = alphabet.substring_ascii(at, at + 1);
        let ghost before = salt@;
        salt.append(piece);
        proof {
            assert(piece@ =~= seq![salt_alphabet()[at as int]]);
            assert(salt@ =~= before.push(salt_alphabet()[at as int]));
        }
        i = i + 1;
    }
    proof {
        assert forall|k: int| 0 <= k < salt@.len() implies salt_alphabet().contains(
            #[trigger] salt@[k],
        ) by {
            assert(salt_alphabet()[indices@[k] as int] == salt@[k]);
        }
    }
    salt
}

/// What hashing returns for a salt and the outcome of bcrypt: the pair of
/// salt and hash, or the password failure when bcrypt failed.
pub fn password_record(salt: String, hashed: Option<String>) -> (record: Result<
    (String, String),
    AppError,
>)
    ensures
        match hashed {
            Some(h) => record == Ok::<(String, String), AppError>((salt, h)),
            None => record matches Err(AppError::InternalServerError(msg)) && msg@
                == "Password hashing error"@,
        },
{
    match hashed {
        Some(h) => Ok((salt, h)),
        None => Err(AppError::from_password_failure()),
    }
}

/// Hashes a password: returns a fresh random salt of sixteen characters and
/// the bcrypt hash of the password.
pub fn hash_password(password: &str) -> (record: Result<(String, String), AppError>)
    ensures
        match record {
            Ok(pair) => is_salt(pair.0@),
            Err(e) => e matches AppError::InternalServerError(msg) && msg@
                == "Password hashing error"@,
        },
{
    let mut indices: Vec<usize> = Vec::with_capacity(SALT_LENGTH);
    let mut i: usize = 0;
    while i < SALT_LENGTH
        invariant
            i <= SALT_LENGTH,
            indices@.len() == i,
            forall|k: int| 0 <= k < indices@.len() ==> (#[trigger] indices@[k]) < 62,
        decreases SALT_LENGTH - i,
    {
        indices.push(random_below(62));
        i = i + 1;
    }
    let salt = salt_from_indices(&indices);
    let hashed = bcrypt_hash(password, HASH_COST);
    password_record(salt, hashed)
}

/// What checking returns for the verdict of bcrypt.
pub fn password_verdict(verdict: Option<bool>) -> (checked: Result<bool, AppError>)
    ensures
        match verdict {
            Some(b) => checked == Ok::<bool, AppError>(b),
            None => checked matches Err(AppError::InternalServerError(msg)) && msg@
                == "Password hashing error"@,
        },
{
    match verdict {
        Some(b) => Ok(b),
        None => Err(AppError::from_password_failure()),
    }
}

/// Checks a password against a stored hash.
pub fn verify_password(password: &str, hash: &str) -> (checked: Result<bool, AppError>)
    ensures
        match bcrypt_verdict(password@, hash@) {
            Some(b) => checked == Ok::<bool, AppError>(b),
            None => checked matches Err(AppError::InternalServerError(msg)) && msg@
                == "Password hashing error"@,
        },
{
    password_verdict(bcrypt_verify(password, hash))
}

} // verus!
