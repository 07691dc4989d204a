//! Field rules of incoming requests; every violation is reported, not only
//! the first.
use vstd::prelude::*;
use vstd::string::StrSliceExecFns;

verus! {

/// One broken field rule.
#[derive(Debug, Clone, Copy, PartialEq, Eq, Structural)]
pub enum Violation {
    UsernameTooShort,
    InvalidEmail,
    PasswordTooShort,
    FirstNameMissing,
    PhoneTooShort,
    CountryMissing,
}

/// The message of each violation.
pub open spec fn violation_text(v: Violation) -> Seq<char> {
    match v {
        Violation::UsernameTooShort => "Username must be at least 3 characters"@,
        Violation::InvalidEmail => "Invalid email format"@,
        Violation::PasswordTooShort => "Password must be at least 6 characters"@,
        Violation::FirstNameMissing => "First name is required"@,
        Violation::PhoneTooShort => "Phone must be at least 3 characters"@,
        Violation::CountryMissing => "Country is required"@,
    }
}

/// The messages of `vs`, in order, separated by `; `.
pub open spec fn joined_text(vs: Seq<Violation>) -> Seq<char>
    decreases vs.len(),
{
    if vs.len() == 0 {
        Seq::empty()
    } else if vs.len() == 1 {
        violation_text(vs[0])
    } else {
        joined_text(vs.drop_last()) + "; "@ + violation_text(vs.last())
    }
}

impl Violation {
    /// The message shown for this violation.
    pub fn message(&self) -> (r: String)
        ensures
            r@ == violation_text(*self),
    {
        match self {
            Violation::UsernameTooShort => String::from_str("Username must be at least 3 characters"),
            Violation::InvalidEmail => String::from_str("Invalid email format"),
            Violation::PasswordTooShort => String::from_str("Password must be at least 6 characters"),
            Violation::FirstNameMissing => String::from_str("First name is required"),
            Violation::PhoneTooShort => String::from_str("Phone must be at least 3 characters"),
            Violation::CountryMissing => String::from_str("Country is required"),
        }
    }
}

/// Whether a text is a well-formed email address.
pub uninterp spec fn email_valid(s: Seq<char>) -> bool;

/// Relies on validator's ValidateEmail for str: an empty text, or one
/// without `@`, is never an email address.
#[verifier::external_body]
fn check_email(s: &str) -> (r: bool)
    ensures
        r == email_valid(s@),
        (s@.len() == 0 || !s@.contains('@')) ==> !r,
{
    validator::ValidateEmail::validate_email(&s)
}

/// Whether `s` is an email address.
pub fn is_email(s: &str) -> (r: bool)
    ensures
        r == email_valid(s@),
{
    check_email(s)
}

/// Whether `s` has at least `min` characters.
pub fn has_min_chars(s: &str, min: usize) -> (r: bool)
    ensures
        r == (s@.len() >= min),
{
    s.unicode_len() >= min
}

/// `v` as a one-element sequence where `broken` holds, else empty.
pub open spec fn flag(broken: bool, v: Violation) -> Seq<Violation> {
    if broken {
        seq![v]
    } else {
        Seq::empty()
    }
}

pub open spec fn opt_email_ok(o: Option<Seq<char>>) -> bool {
    match o {
        Some(e) => email_valid(e),
        None => true,
    }
}

pub open spec fn opt_min_len_ok(o: Option<Seq<char>>, min: nat) -> bool {
    match o {
        Some(s) => s.len() >= min,
        None => true,
    }
}

/// Pushes `v` onto `out` where `broken` holds.
pub fn note(out: &mut Vec<Violation>, broken: bool, v: Violation)
    ensures
        final(out)@ == old(out)@ + flag(broken, v),
{
    if broken {
        out.push(v);
    }
    assert(final(out)@ =~= old(out)@ + flag(broken, v));
}

} // verus!
