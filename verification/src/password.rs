//! Local password hashing, argon2id in PHC string format.

use argon2::password_hash::PasswordHasher;
use argon2::password_hash::PasswordVerifier;

use vstd::prelude::*;
use vstd::utf8::encode_utf8;

use crate::text::chars_of;
use crate::text::starts_with;
use crate::text::text_between;
use crate::token::random_bytes;
use crate::weburl::opt_view;

verus! {

#[derive(Debug)]
pub enum HashError {
    /// The salt could not be generated.
    Salt(String),
    Argon2(String),
}

/// The PHC string that argon2id makes of a password and a salt, or what went wrong.
pub uninterp spec fn argon2_phc(password: Seq<char>, salt: Seq<u8>) -> Result<Seq<char>, Seq<char>>;

/// Whether argon2 finds that a password matches a PHC string; it never does where the string
/// is not one.
pub uninterp spec fn argon2_accepts(password: Seq<char>, hash: Seq<char>) -> bool;

/// Whether argon2 takes a password: any shorter than 4 GiB.
pub open spec fn password_fits(password: Seq<char>) -> bool {
    encode_utf8(password).len() <= 0xffff_ffff
}

/// Whether argon2 takes a salt: it asks for eight bytes, and the B64 form of a salt has room for
/// forty-eight.
pub open spec fn salt_fits(salt: Seq<u8>) -> bool {
    8 <= salt.len() <= 48
}

/// Bytes of the salt that each password gets.
pub const SALT_BYTES: usize = 16;

/// `PasswordHasher::hash_password` of argon2's default (argon2id), with the salt in the B64
/// form that it takes: a PHC string that names the algorithm and that the password matches, or
/// the error's message. It fails on a password or a salt of a length that argon2 does not take,
/// and on no other. The same password and salt give the same string. With fewer than three
/// bytes the salt's B64 form is shorter than a salt may be, and the call panics.
#[verifier::external_body]
fn argon2_hash(password: &str, salt: &Vec<u8>) -> (r: Result<String, String>)
    requires
        salt@.len() >= 3,
    ensures
        r is Ok == (password_fits(password@) && salt_fits(salt@)),
        match r {
            Ok(hash) => argon2_phc(password@, salt@) == Ok::<Seq<char>, Seq<char>>(hash@)
                && starts_with(hash@, "$argon2id$"@) && argon2_accepts(password@, hash@),
            Err(error) => argon2_phc(password@, salt@) == Err::<Seq<char>, Seq<char>>(error@),
        },
{
    let salt = argon2::password_hash::SaltString::encode_b64(salt).map_err(|e| e.to_string())?;
    match argon2::Argon2::default().hash_password(password.as_bytes(), &salt) {
        Ok(hash) => Ok(hash.to_string()),
        Err(error) => Err(error.to_string()),
    }
}

/// `PasswordVerifier::verify_password` of argon2's default, with the PHC string parsed by
/// `PasswordHash::new`: whether the password matches. The answer depends on the two texts
/// alone.
#[verifier::external_body]
fn argon2_verify(password: &str, hash: &str) -> (r: bool)
    ensures
        r == argon2_accepts(password@, hash@),
{
    match argon2::password_hash::PasswordHash::new(hash) {
        Ok(parsed) => argon2::Argon2::default().verify_password(password.as_bytes(), &parsed).is_ok(),
        Err(_) => false,
    }
}

/// The PHC string of `password` with this salt, which has at least three bytes.
pub fn hash_with(password: &str, salt: &Vec<u8>) -> (r: Result<String, HashError>)
    requires
        salt@.len() >= 3,
    ensures
        r is Ok == (password_fits(password@) && salt_fits(salt@)),
        match r {
            Ok(hash) => argon2_phc(password@, salt@) == Ok::<Seq<char>, Seq<char>>(hash@)
                && starts_with(hash@, "$argon2id$"@) && argon2_accepts(password@, hash@),
            Err(HashError::Argon2(error)) => argon2_phc(password@, salt@) == Err::<
                Seq<char>,
                Seq<char>,
            >(error@),
            Err(HashError::Salt(_)) => false,
        },
{
    match argon2_hash(password, salt) {
        Ok(hash) => Ok(hash),
        Err(error) => Err(HashError::Argon2(error)),
    }
}

/// PHC string (`$argon2id$v=19$...`) of `password` with a fresh random salt. Whatever the salt,
/// the password matches it. A password that argon2 takes fails only where no salt could be had.
pub fn hash(password: &str) -> (r: Result<String, HashError>)
    ensures
        match r {
            Ok(hash) => {
                &&& password_fits(password@)
                &&& starts_with(hash@, "$argon2id$"@)
                &&& argon2_accepts(password@, hash@)
                &&& exists|salt: Seq<u8>|
                    salt.len() == SALT_BYTES && #[trigger] argon2_phc(password@, salt) == Ok::<
                        Seq<char>,
                        Seq<char>,
                    >(hash@)
            },
            Err(HashError::Argon2(error)) => {
                &&& !password_fits(password@)
                &&& exists|salt: Seq<u8>|
                    salt.len() == SALT_BYTES && #[trigger] argon2_phc(password@, salt) == Err::<
                        Seq<char>,
                        Seq<char>,
                    >(error@)
            },
            Err(HashError::Salt(_)) => true,
        },
{
    match random_bytes(SALT_BYTES) {
        Ok(salt) => hash_with(password, &salt),
        Err(error) => Err(HashError::Salt(error)),
    }
}

/// Whether `password` matches `hash`; a malformed hash never matches.
#[must_use]
pub fn verify(password: &str, hash: &str) -> (r: bool)
    ensures
        r == argon2_accepts(password@, hash@),
{
    argon2_verify(password, hash)
}

/// A line without the line feeds and carriage returns that it ends in.
pub open spec fn unended(line: Seq<char>) -> Seq<char>
    decreases line.len(),
{
    if line.len() > 0 && (line.last() == '\n' || line.last() == '\r') {
        unended(line.drop_last())
    } else {
        line
    }
}

/// The password that a line of input holds; `None` where it holds none.
pub fn entered(line: &str) -> (r: Option<String>)
    ensures
        opt_view(r) == if unended(line@).len() == 0 {
            None
        } else {
            Some(unended(line@))
        },
{
    let v = chars_of(line);
    let mut end: usize = v.len();
    proof {
        assert(v@.take(v@.len() as int) =~= v@);
    }
    while end > 0 && (v[end - 1] == '\n' || v[end - 1] == '\r')
        invariant
            end <= v@.len(),
            unended(v@.take(end as int)) == unended(v@),
        decreases end,
    {
        proof {
            assert(v@.take(end as int).drop_last() =~= v@.take(end as int - 1));
        }
        end -= 1;
    }
    proof {
        assert(unended(v@.take(end as int)) == v@.take(end as int));
        assert(v@.subrange(0, end as int) =~= v@.take(end as int));
    }
    if end == 0 {
        None
    } else {
        Some(text_between(&v, 0, end))
    }
}

} // verus!
