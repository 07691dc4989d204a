//! Errors returned by the identity and contact operations.
use vstd::prelude::*;
use crate::token::TokenError;
use crate::validation::{joined_text, violation_text, Violation};

verus! {

/// Why an operation did not succeed.
#[derive(Debug)]
pub enum ServiceError {
    /// The request broke field rules; all of them are listed.
    Validation(Vec<Violation>),
    /// The email is already registered.
    Conflict,
    /// Unknown email or wrong password; the two are not told apart.
    InvalidCredentials,
    /// No record has the given identifier.
    NotFound,
    /// The record exists but belongs to another user.
    Unauthorized,
    /// The store refused the write.
    Repository,
    /// A password hash could not be produced or read.
    Hashing,
    /// A token could not be issued.
    Token(TokenError),
}

impl ServiceError {
    /// The message shown for this error; both ways a login can fail show
    /// the same one.
    pub fn message(&self) -> (r: String)
        ensures
            *self matches ServiceError::Validation(vs) ==> r@ == joined_text(vs@),
            *self == ServiceError::Conflict ==> r@ == "Email already exists"@,
            *self == ServiceError::InvalidCredentials ==> r@ == "Invalid credentials"@,
            *self == ServiceError::NotFound ==> r@ == "Contact not found"@,
            *self == ServiceError::Unauthorized ==> r@ == "Unauthorized"@,
            *self == ServiceError::Repository ==> r@ == "Storage failure"@,
            *self == ServiceError::Hashing ==> r@ == "Password hashing failed"@,
            *self matches ServiceError::Token(_) ==> r@ == "Token could not be issued"@,
    {
        match self {
            ServiceError::Validation(vs) => {
                let mut s = String::new();
                let mut i: usize = 0;
                while i < vs.len()
                    invariant
                        i <= vs@.len(),
                        s@ == joined_text(vs@.subrange(0, i as int)),
                    decreases vs.len() - i,
                {
                    assert(vs@.subrange(0, i + 1).drop_last() =~= vs@.subrange(0, i as int));
                    if i > 0 {
                        s.append("; ");
                    }
                    let m = vs[i].message();
                    s.append(m.as_str());
                    proof {
                        let pre = vs@.subrange(0, i + 1);
                        assert(pre.last() == vs@[i as int]);
                        if i == 0 {
                            assert(s@ =~= violation_text(pre[0]));
                        }
                    }
                    i = i + 1;
                }
                assert(vs@.subrange(0, vs@.len() as int) =~= vs@);
                s
            },
            ServiceError::Conflict => String::from_str("Email already exists"),
            ServiceError::InvalidCredentials => String::from_str("Invalid credentials"),
            ServiceError::NotFound => String::from_str("Contact not found"),
            ServiceError::Unauthorized => String::from_str("Unauthorized"),
            ServiceError::Repository => String::from_str("Storage failure"),
            ServiceError::Hashing => String::from_str("Password hashing failed"),
            ServiceError::Token(_) => String::from_str("Token could not be issued"),
        }
    }
}

} // verus!
