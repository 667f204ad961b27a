//! Accounts and passwords. Passwords are hashed and checked by Argon2.

use vstd::prelude::*;
use argon2::password_hash::rand_core::OsRng;
use argon2::password_hash::SaltString;
use argon2::{Argon2, PasswordHash, PasswordHasher, PasswordVerifier};
use crate::error::AppError;
use crate::models::User;
use crate::repository::user_repository::{user_named, user_with_id, UserRepository};
use crate::text::is_prefix;

verus! {

/// The error of the password hashing library.
#[verifier::external_type_specification]
#[verifier::external_body]
pub struct ExPasswordHashError(argon2::password_hash::Error);

/// The hash string that Argon2, with its default parameters, makes of a
/// password and a salt; none if it refuses the salt or the password.
pub uninterp spec fn argon2_hash_of(password: Seq<char>, salt: Seq<char>) -> Option<Seq<char>>;

/// The text has the form of a password hash string.
pub uninterp spec fn parses_as_password_hash(hash: Seq<char>) -> bool;

/// Argon2 finds that the password is the one that the hash string was made
/// of.
pub uninterp spec fn argon2_accepts(hash: Seq<char>, password: Seq<char>) -> bool;

/// Calls `SaltString::generate` with the operating system's random number
/// generator. The salt differs from call to call, so nothing is claimed of
/// it.
#[verifier::external_body]
fn new_salt() -> (r: String) {
    SaltString::generate(&mut OsRng).as_str().to_string()
}

/// Calls `Argon2::default().hash_password` with the salt parsed by
/// `SaltString::from_b64`. The outcome depends on the password and the salt
/// alone; the contract gives it its name.
#[verifier::external_body]
fn hash_with_salt(password: &str, salt: &str) -> (r: Result<String, argon2::password_hash::Error>)
    ensures
        match r {
            Ok(hash) => argon2_hash_of(password@, salt@) == Some(hash@),
            Err(_) => argon2_hash_of(password@, salt@) is None,
        },
{
    let salt = SaltString::from_b64(salt)?;
    Argon2::default().hash_password(password.as_bytes(), &salt).map(|hash| hash.to_string())
}

/// Calls `PasswordHash::new` and tells whether it accepted the text.
#[verifier::external_body]
fn is_password_hash(hash: &str) -> (r: bool)
    ensures
        r == parses_as_password_hash(hash@),
{
    PasswordHash::new(hash).is_ok()
}

/// Calls `Argon2::default().verify_password` on a hash string parsed by
/// `PasswordHash::new`, and tells whether the password was accepted. A text
/// that is no hash string accepts nothing.
#[verifier::external_body]
fn password_matches(hash: &str, password: &str) -> (r: bool)
    ensures
        r == (parses_as_password_hash(hash@) && argon2_accepts(hash@, password@)),
{
    match PasswordHash::new(hash) {
        Ok(parsed) => Argon2::default().verify_password(password.as_bytes(), &parsed).is_ok(),
        Err(_) => false,
    }
}

/// Calls `to_string` on an error of the password hashing library; nothing
/// is claimed of the text.
#[verifier::external_body]
fn password_error_text(e: &argon2::password_hash::Error) -> (r: String) {
    e.to_string()
}

/// What checking a password against a hash string comes to.
pub open spec fn password_verdict(r: Result<(), AppError>, hash: Seq<char>, password: Seq<char>) -> bool {
    if !parses_as_password_hash(hash) {
        r matches Err(AppError::Internal(msg)) && msg@ == "Invalid password hash format"@
    } else if argon2_accepts(hash, password) {
        r is Ok
    } else {
        r matches Err(AppError::Authentication)
    }
}

/// What checking a user's credentials comes to.
pub open spec fn credentials_verdict(
    r: Result<i64, AppError>,
    rows: Seq<User>,
    username: Seq<char>,
    password: Seq<char>,
) -> bool {
    match user_named(rows, username) {
        None => r matches Err(AppError::Authentication),
        Some(user) => if !parses_as_password_hash(user.password_hash@) {
            r matches Err(AppError::Internal(msg)) && msg@ == "Invalid password hash format"@
        } else if argon2_accepts(user.password_hash@, password) {
            r == Ok::<i64, AppError>(user.id)
        } else {
            r matches Err(AppError::Authentication)
        },
    }
}

/// Creates accounts and checks credentials.
pub struct UserService {
    pub user_repo: UserRepository,
}

impl UserService {
    /// The service over the given accounts.
    pub fn new(user_repo: UserRepository) -> (r: UserService)
        ensures
            r.user_repo == user_repo,
    {
        UserService { user_repo }
    }

    /// Creates an account. A name that is taken is an internal error, and
    /// nothing changes.
    pub fn create_user(&mut self, username: &str, password_hash: &str, is_admin: bool, now: i64) -> (r:
        Result<(), AppError>)
        requires
            old(self).user_repo.wf(),
        ensures
            final(self).user_repo.wf(),
            if user_named(old(self).user_repo@, username@) is None && old(
                self,
            ).user_repo.next_user_id() < i64::MAX {
                &&& r is Ok
                &&& final(self).user_repo@.len() == old(self).user_repo@.len() + 1
                &&& final(self).user_repo@.drop_last() == old(self).user_repo@
                &&& final(self).user_repo@.last().id == old(self).user_repo.next_user_id()
                &&& final(self).user_repo@.last().username@ == username@
                &&& final(self).user_repo@.last().password_hash@ == password_hash@
                &&& final(self).user_repo@.last().is_admin == is_admin
                &&& final(self).user_repo@.last().created_at == now
            } else {
                &&& r matches Err(AppError::Internal(msg)) && msg@ == "Database error: "@ + (
                if user_named(old(self).user_repo@, username@) is Some {
                    "username is taken"@
                } else {
                    "user keys are used up"@
                })
                &&& final(self).user_repo@ == old(self).user_repo@
            },
    {
        match self.user_repo.create(username, password_hash, is_admin, now) {
            Ok(_) => {
                proof {
                    assert(self.user_repo@.drop_last() =~= old(self).user_repo@);
                }
                Ok(())
            },
            Err(e) => Err(AppError::Internal(e.to_string())),
        }
    }

    /// The account with key `id`, if there is one.
    pub fn find_by_id(&self, id: i64) -> (r: Option<User>)
        requires
            self.user_repo.wf(),
        ensures
            r == user_with_id(self.user_repo@, id),
    {
        self.user_repo.find_by_id(id)
    }

    /// Checks a name and a password, and returns the key of the account that
    /// they belong to. An unknown name and a wrong password are both an
    /// authentication failure.
    pub fn verify_credentials(&self, username: &str, password: &str) -> (r: Result<i64, AppError>)
        requires
            self.user_repo.wf(),
        ensures
            credentials_verdict(r, self.user_repo@, username@, password@),
    {
        let user: User = match self.user_repo.find_by_username(username) {
            Some(user) => user,
            None => {
                return Err(AppError::Authentication);
            },
        };
        match self.verify_password(user.password_hash.as_str(), password) {
            Ok(_) => Ok(user.id),
            Err(e) => Err(e),
        }
    }

    /// Tells whether there is no account at all.
    pub fn is_empty(&self) -> (r: bool)
        ensures
            r == (self.user_repo@.len() == 0),
    {
        self.user_repo.is_empty()
    }

    /// Hashes a password with a given salt.
    pub fn hash_password_with_salt(password: &str, salt: &str) -> (r: Result<String, AppError>)
        ensures
            match argon2_hash_of(password@, salt@) {
                Some(hash) => r matches Ok(h) && h@ == hash,
                None => r matches Err(AppError::Internal(msg)) && is_prefix(
                    "Failed to hash password: "@,
                    msg@,
                ),
            },
    {
        match hash_with_salt(password, salt) {
            Ok(hash) => Ok(hash),
            Err(e) => {
                let detail: String = password_error_text(&e);
                let message: String = String::from_str("Failed to hash password: ").concat(
                    detail.as_str(),
                );
                proof {
                    let head = "Failed to hash password: "@;
                    assert(message@.subrange(0, head.len() as int) =~= head);
                }
                Err(AppError::Internal(message))
            },
        }
    }

    /// Hashes a password with a salt made at random.
    pub fn hash_password(password: &str) -> (r: Result<String, AppError>)
        ensures
            match r {
                Ok(hash) => exists|salt: Seq<char>|
                    argon2_hash_of(password@, salt) == Some(hash@),
                Err(e) => e matches AppError::Internal(msg) && is_prefix(
                    "Failed to hash password: "@,
                    msg@,
                ),
            },
    {
        let salt: String = new_salt();
        Self::hash_password_with_salt(password, salt.as_str())
    }

    /// Checks a password against a hash string. A text that is no hash string
    /// is an internal error; a password that does not match is an
    /// authentication failure.
    pub fn verify_password(&self, password_hash: &str, password: &str) -> (r: Result<(), AppError>)
        ensures
            password_verdict(r, password_hash@, password@),
    {
        if !is_password_hash(password_hash) {
            return Err(AppError::Internal(String::from_str("Invalid password hash format")));
        }
        if password_matches(password_hash, password) {
            Ok(())
        } else {
            Err(AppError::Authentication)
        }
    }

    /// Creates the first account, an administrator, if there is no account
    /// yet, and tells whether it did.
    pub fn initialize_admin_if_needed(&mut self, username: &str, password: &str, now: i64) -> (r:
        Result<bool, AppError>)
        requires
            old(self).user_repo.wf(),
        ensures
            final(self).user_repo.wf(),
            old(self).user_repo@.len() > 0 ==> r == Ok::<bool, AppError>(false)
                && final(self).user_repo@ == old(self).user_repo@,
            old(self).user_repo@.len() == 0 ==> match r {
                Ok(created) => {
                    &&& created
                    &&& final(self).user_repo@.len() == 1
                    &&& final(self).user_repo@[0].username@ == username@
                    &&& final(self).user_repo@[0].is_admin
                    &&& final(self).user_repo@[0].created_at == now
                    &&& exists|salt: Seq<char>|
                        argon2_hash_of(password@, salt) == Some(
                            final(self).user_repo@[0].password_hash@,
                        )
                },
                Err(e) => e is Internal && final(self).user_repo@ == old(self).user_repo@,
            },
    {
        if !self.is_empty() {
            return Ok(false);
        }
        let password_hash: String = match Self::hash_password(password) {
            Ok(hash) => hash,
            Err(e) => {
                return Err(e);
            },
        };
        match self.create_user(username, password_hash.as_str(), true, now) {
            Ok(_) => Ok(true),
            Err(e) => Err(e),
        }
    }
}

} // verus!
