//! One-way hashing and checking of passwords.
use vstd::prelude::*;

verus! {

/// The cost factor of every hash that this library produces.
pub const HASH_COST: u32 = 12;

/// What checking `password` against `digest` yields: `None` where the digest
/// is not a well-formed hash, else whether it was produced from the password.
pub uninterp spec fn bcrypt_check(password: Seq<char>, digest: Seq<char>) -> Option<bool>;

/// The decimal digit of `n` (meaningful for 0 to 9).
pub open spec fn decimal_digit(n: int) -> char {
    if n == 0 { '0' } else if n == 1 { '1' } else if n == 2 { '2' } else if n == 3 { '3' }
    else if n == 4 { '4' } else if n == 5 { '5' } else if n == 6 { '6' } else if n == 7 { '7' }
    else if n == 8 { '8' } else { '9' }
}

/// `d` has the shape of a version-2b digest made at `cost`: `$2b$`, the
/// cost in two digits, `$`, then 53 characters of salt and hash.
pub open spec fn digest_shape(d: Seq<char>, cost: u32) -> bool {
    &&& d.len() == 60
    &&& d[0] == '$' && d[1] == '2' && d[2] == 'b' && d[3] == '$'
    &&& d[4] == decimal_digit(cost as int / 10)
    &&& d[5] == decimal_digit(cost as int % 10)
    &&& d[6] == '$'
}

/// A hash could not be produced or read.
#[derive(Debug, Clone, Copy, PartialEq, Eq, Structural)]
pub struct HashingError;

/// Relies on bcrypt::hash: a salted hash with a random salt, written as
/// `$2b$`, the cost in two digits, `$` and 22 + 31 base-64 characters, which
/// bcrypt::verify accepts for the same password; a cost outside 4..=31 is
/// refused.
#[verifier::external_body]
fn bcrypt_hash(password: &str, cost: u32) -> (r: Option<String>)
    ensures
        r matches Some(d) ==> bcrypt_check(password@, d@) == Some(true) && digest_shape(d@, cost),
        !(4 <= cost <= 31) ==> r is None,
{
    bcrypt::hash(password, cost).ok()
}

/// Relies on bcrypt::verify: rehashes the password with the digest's salt and
/// cost and compares in constant time; fails on a malformed digest, and
/// every well-formed one has a two-character prefix, a cost, two `$` and 53
/// base-64 characters, so at least 58 characters.
#[verifier::external_body]
fn bcrypt_verify(password: &str, digest: &str) -> (r: Option<bool>)
    ensures
        r == bcrypt_check(password@, digest@),
        digest@.len() < 58 ==> r is None,
{
    bcrypt::verify(password, digest).ok()
}

/// Hashes and checks passwords.
pub struct PasswordService;

impl PasswordService {
    /// Hashes `password` with a fresh salt; every digest produced verifies
    /// against the password.
    pub fn hash_password(password: &str) -> (r: Result<String, HashingError>)
        ensures
            r matches Ok(d) ==> bcrypt_check(password@, d@) == Some(true) && digest_shape(d@, HASH_COST),
    {
        Self::hash_password_with_cost(password, HASH_COST)
    }

    /// Hashes `password` with a fresh salt at the given cost factor; a cost
    /// outside 4..=31 fails.
    pub fn hash_password_with_cost(password: &str, cost: u32) -> (r: Result<String, HashingError>)
        ensures
            r matches Ok(d) ==> bcrypt_check(password@, d@) == Some(true) && digest_shape(d@, cost),
            !(4 <= cost <= 31) ==> r == Err::<String, HashingError>(HashingError),
    {
        match bcrypt_hash(password, cost) {
            Some(d) => Ok(d),
            None => Err(HashingError),
        }
    }

    /// Whether `digest` was produced from `password`; fails only on a
    /// malformed digest, as every digest under 58 characters is.
    pub fn verify_password(password: &str, digest: &str) -> (r: Result<bool, HashingError>)
        ensures
            digest@.len() < 58 ==> r == Err::<bool, HashingError>(HashingError),
            match bcrypt_check(password@, digest@) {
                Some(b) => r == Ok::<bool, HashingError>(b),
                None => r == Err::<bool, HashingError>(HashingError),
            },
    {
        match bcrypt_verify(password, digest) {
            Some(b) => Ok(b),
            None => Err(HashingError),
        }
    }
}

} // verus!
