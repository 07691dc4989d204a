//! Registration and login against a directory of users keyed by unique email.
use vstd::prelude::*;
use vstd::string::StrSliceExecFns;
use crate::credential::{bcrypt_check, PasswordService, HASH_COST};
use crate::error::ServiceError;
use crate::token::{
    token_verdict,
    clock_now, clock_reading, fresh_id, jwt_claims_of, signed_fields, uuid_parsed, uuid_text, JwtService, TokenError,
    TOKEN_LIFETIME_SECS,
};
use crate::validation::{email_valid, flag, has_min_chars, is_email, note, Violation};

verus! {

/// A registered user; the raw password is never kept.
#[derive(Debug)]
pub struct User {
    pub id: u128,
    pub username: String,
    pub email: String,
    pub password_hash: String,
    pub created_at: i64,
    pub updated_at: i64,
}

impl User {
    /// A field-by-field copy.
    pub fn duplicate(&self) -> (r: User)
        ensures
            r == *self,
    {
        User {
            id: self.id,
            username: self.username.clone(),
            email: self.email.clone(),
            password_hash: self.password_hash.clone(),
            created_at: self.created_at,
            updated_at: self.updated_at,
        }
    }
}

#[derive(Debug)]
pub struct RegisterRequest {
    pub username: String,
    pub email: String,
    pub password: String,
}

#[derive(Debug)]
pub struct LoginRequest {
    pub email: String,
    pub password: String,
}

/// A user as shown to callers: without the password hash.
#[derive(Debug)]
pub struct UserResponse {
    pub id: u128,
    pub username: String,
    pub email: String,
    pub created_at: i64,
}

#[derive(Debug)]
pub struct AuthResponse {
    pub token: String,
    pub user: UserResponse,
}

pub open spec fn user_view(u: User) -> UserResponse {
    UserResponse { id: u.id, username: u.username, email: u.email, created_at: u.created_at }
}

impl UserResponse {
    pub fn from(user: User) -> (r: UserResponse)
        ensures
            r == user_view(user),
    {
        UserResponse { id: user.id, username: user.username, email: user.email, created_at: user.created_at }
    }
}

/// The rules that a registration breaks, in field order.
pub open spec fn register_violations(username: Seq<char>, email: Seq<char>, password: Seq<char>) -> Seq<Violation> {
    flag(username.len() < 3, Violation::UsernameTooShort) + flag(!email_valid(email), Violation::InvalidEmail)
        + flag(password.len() < 6, Violation::PasswordTooShort)
}

impl RegisterRequest {
    /// Every rule that this request breaks.
    pub fn validate(&self) -> (r: Vec<Violation>)
        ensures
            r@ == register_violations(self.username@, self.email@, self.password@),
    {
        let mut out: Vec<Violation> = Vec::new();
        note(&mut out, !has_min_chars(self.username.as_str(), 3), Violation::UsernameTooShort);
        note(&mut out, !is_email(self.email.as_str()), Violation::InvalidEmail);
        note(&mut out, !has_min_chars(self.password.as_str(), 6), Violation::PasswordTooShort);
        assert(out@ =~= register_violations(self.username@, self.email@, self.password@));
        out
    }
}

pub open spec fn email_taken(users: Seq<User>, email: Seq<char>) -> bool {
    exists|i: int| 0 <= i < users.len() && (#[trigger] users[i]).email@ == email
}

pub open spec fn id_taken(users: Seq<User>, id: u128) -> bool {
    exists|i: int| 0 <= i < users.len() && (#[trigger] users[i]).id == id
}

/// The user registered under `email` (meaningful where one is).
pub open spec fn user_with_email(users: Seq<User>, email: Seq<char>) -> User {
    users[choose|i: int| 0 <= i < users.len() && (#[trigger] users[i]).email@ == email]
}

/// Emails and identifiers are unique in the directory.
pub open spec fn users_wf(users: Seq<User>) -> bool {
    &&& forall|i: int, j: int|
        0 <= i < users.len() && 0 <= j < users.len() && (#[trigger] users[i]).email@ == (#[trigger] users[j]).email@ ==> i == j
    &&& forall|i: int, j: int|
        0 <= i < users.len() && 0 <= j < users.len() && (#[trigger] users[i]).id == (#[trigger] users[j]).id ==> i == j
}

/// The store of users that registration and login use: emails and
/// identifiers are unique.
pub trait UserRepository: Sized {
    /// The stored users, in the order they were stored.
    spec fn users(&self) -> Seq<User>;

    /// Whether the store answers reads; an unreachable store fails every
    /// read with `Repository`.
    spec fn reachable(&self) -> bool;

    /// The user registered under `email`, if any.
    fn find_user_by_email(&self, email: &str) -> (r: Result<Option<User>, ServiceError>)
        requires
            users_wf(self.users()),
        ensures
            !self.reachable() ==> r == Err::<Option<User>, ServiceError>(ServiceError::Repository),
            self.reachable() ==> (r matches Ok(o) && match o {
                Some(u) => email_taken(self.users(), email@) && u == user_with_email(self.users(), email@),
                None => !email_taken(self.users(), email@),
            }),
    ;

    /// The user with identifier `id`, if any.
    fn find_user_by_id(&self, id: u128) -> (r: Result<Option<User>, ServiceError>)
        ensures
            !self.reachable() ==> r == Err::<Option<User>, ServiceError>(ServiceError::Repository),
            self.reachable() ==> (r matches Ok(o) && match o {
                Some(u) => id_taken(self.users(), id) && u.id == id && self.users().contains(u),
                None => !id_taken(self.users(), id),
            }),
    ;

    /// Stores `user`; the unique indexes refuse a second user with the same
    /// email (`Conflict`) or the same identifier (`Repository`).
    fn create_user(&mut self, user: User) -> (r: Result<User, ServiceError>)
        requires
            users_wf(old(self).users()),
        ensures
            users_wf(final(self).users()),
            email_taken(old(self).users(), user.email@) ==> r == Err::<User, ServiceError>(ServiceError::Conflict)
                && final(self).users() == old(self).users(),
            !email_taken(old(self).users(), user.email@) && id_taken(old(self).users(), user.id)
                ==> r == Err::<User, ServiceError>(ServiceError::Repository) && final(self).users() == old(self).users(),
            !email_taken(old(self).users(), user.email@) && !id_taken(old(self).users(), user.id)
                ==> r == Ok::<User, ServiceError>(user) && final(self).users() == old(self).users().push(user),
    ;
}

/// The in-memory user directory: a unique index on email and on identifier.
pub struct UserDirectory {
    users: Vec<User>,
}

impl UserDirectory {
    pub open spec fn wf(&self) -> bool {
        users_wf(self.users())
    }

    pub fn new() -> (r: UserDirectory)
        ensures
            r.wf(),
            r.users() == Seq::<User>::empty(),
            r.reachable(),
    {
        UserDirectory { users: Vec::new() }
    }

    /// The user registered under `email`, if any.
    fn lookup_email(&self, email: &str) -> (r: Option<User>)
        requires
            self.wf(),
        ensures
            match r {
                Some(u) => email_taken(self.users(), email@) && u == user_with_email(self.users(), email@),
                None => !email_taken(self.users(), email@),
            },
    {
        let key = String::from_str(email);
        let mut i: usize = 0;
        while i < self.users.len()
            invariant
                i <= self.users@.len(),
                self.wf(),
                key@ == email@,
                forall|k: int| 0 <= k < i ==> (#[trigger] self.users@[k]).email@ != email@,
            decreases self.users.len() - i,
        {
            if self.users[i].email == key {
                let ghost j = choose|j: int| 0 <= j < self.users@.len() && (#[trigger] self.users@[j]).email@ == email@;
                assert(self.users@[j].email@ == self.users@[i as int].email@);
                assert(j == i as int);
                assert(user_with_email(self.users(), email@) == self.users@[i as int]);
                return Some(self.users[i].duplicate());
            }
            i = i + 1;
        }
        None
    }

    /// The user with identifier `id`, if any.
    fn lookup_id(&self, id: u128) -> (r: Option<User>)
        ensures
            match r {
                Some(u) => id_taken(self.users(), id) && u.id == id && self.users().contains(u),
                None => !id_taken(self.users(), id),
            },
    {
        let mut i: usize = 0;
        while i < self.users.len()
            invariant
                i <= self.users@.len(),
                forall|k: int| 0 <= k < i ==> (#[trigger] self.users@[k]).id != id,
            decreases self.users.len() - i,
        {
            if self.users[i].id == id {
                return Some(self.users[i].duplicate());
            }
            i = i + 1;
        }
        None
    }
}

impl UserRepository for UserDirectory {
    closed spec fn users(&self) -> Seq<User> {
        self.users@
    }

    /// The in-memory directory always answers.
    closed spec fn reachable(&self) -> bool {
        true
    }

    fn find_user_by_email(&self, email: &str) -> (r: Result<Option<User>, ServiceError>) {
        Ok(self.lookup_email(email))
    }

    fn find_user_by_id(&self, id: u128) -> (r: Result<Option<User>, ServiceError>) {
        Ok(self.lookup_id(id))
    }

    fn create_user(&mut self, user: User) -> (r: Result<User, ServiceError>) {
        match self.lookup_email(user.email.as_str()) {
            Some(_) => return Err(ServiceError::Conflict),
            None => {},
        }
        match self.lookup_id(user.id) {
            Some(_) => return Err(ServiceError::Repository),
            None => {},
        }
        let copy = user.duplicate();
        let ghost before = self.users@;
        self.users.push(copy);
        proof {
            let after = self.users@;
            assert forall|i: int, j: int|
                0 <= i < after.len() && 0 <= j < after.len() && (#[trigger] after[i]).email@ == (#[trigger] after[j]).email@
                implies i == j by {
                if i < before.len() && j == before.len() {
                    assert(before[i].email@ == user.email@);
                } else if j < before.len() && i == before.len() {
                    assert(before[j].email@ == user.email@);
                }
            }
            assert forall|i: int, j: int|
                0 <= i < after.len() && 0 <= j < after.len() && (#[trigger] after[i]).id == (#[trigger] after[j]).id
                implies i == j by {
                if i < before.len() && j == before.len() {
                    assert(before[i].id == user.id);
                } else if j < before.len() && i == before.len() {
                    assert(before[j].id == user.id);
                }
            }
        }
        Ok(user)
    }

}

/// The outcome of checking `email` and `password` against the directory:
/// an unknown email and a wrong password give the same error.
pub open spec fn login_verdict(users: Seq<User>, email: Seq<char>, password: Seq<char>) -> Result<User, ServiceError> {
    if !email_taken(users, email) {
        Err(ServiceError::InvalidCredentials)
    } else {
        match bcrypt_check(password, user_with_email(users, email).password_hash@) {
            None => Err(ServiceError::Hashing),
            Some(false) => Err(ServiceError::InvalidCredentials),
            Some(true) => Ok(user_with_email(users, email)),
        }
    }
}

/// The user that a registration stores.
pub open spec fn new_user(req: RegisterRequest, id: u128, digest: String, now: i64) -> User {
    User {
        id,
        username: req.username,
        email: req.email,
        password_hash: digest,
        created_at: now,
        updated_at: now,
    }
}

/// The outcome of a login as the store answers it: an unreachable store
/// fails with `Repository`, else as `login_verdict`.
pub open spec fn login_outcome(reachable: bool, users: Seq<User>, email: Seq<char>, password: Seq<char>) -> Result<User, ServiceError> {
    if !reachable {
        Err(ServiceError::Repository)
    } else {
        login_verdict(users, email, password)
    }
}

/// `after` is `before` with one new user, registered from these fields, whose
/// password hash verifies against `password` and whose view is `view`.
pub open spec fn registered(
    before: Seq<User>,
    after: Seq<User>,
    username: Seq<char>,
    email: Seq<char>,
    password: Seq<char>,
    view: UserResponse,
) -> bool {
    &&& after.len() == before.len() + 1
    &&& after.drop_last() == before
    &&& after.last().username@ == username
    &&& after.last().email@ == email
    &&& bcrypt_check(password, after.last().password_hash@) == Some(true)
    &&& view == user_view(after.last())
}

/// Registration and login over a user directory.
pub struct UserUsecase<R: UserRepository> {
    directory: R,
    jwt_service: JwtService,
    hash_cost: u32,
}

impl<R: UserRepository> UserUsecase<R> {
    pub closed spec fn users(&self) -> Seq<User> {
        self.directory.users()
    }

    pub closed spec fn reachable(&self) -> bool {
        self.directory.reachable()
    }

    pub closed spec fn secret(&self) -> Seq<char> {
        self.jwt_service.secret_view()
    }

    pub open spec fn wf(&self) -> bool {
        users_wf(self.users())
    }

    pub fn new(directory: R, jwt_service: JwtService) -> (r: UserUsecase<R>)
        requires
            users_wf(directory.users()),
        ensures
            r.wf(),
            r.users() == directory.users(),
            r.secret() == jwt_service.secret_view(),
            r.reachable() == directory.reachable(),
    {
        UserUsecase { directory, jwt_service, hash_cost: HASH_COST }
    }

    /// As `new`, hashing passwords at cost factor `hash_cost`.
    pub fn with_hash_cost(directory: R, jwt_service: JwtService, hash_cost: u32) -> (r: UserUsecase<R>)
        requires
            users_wf(directory.users()),
        ensures
            r.wf(),
            r.users() == directory.users(),
            r.secret() == jwt_service.secret_view(),
            r.reachable() == directory.reachable(),
    {
        UserUsecase { directory, jwt_service, hash_cost }
    }

    /// Registers a new user: all field rules first, then the email's
    /// uniqueness, then a fresh identifier and a salted hash of the password.
    pub fn register(&mut self, req: RegisterRequest) -> (r: Result<UserResponse, ServiceError>)
        requires
            old(self).wf(),
        ensures
            final(self).wf(),
            final(self).secret() == old(self).secret(),
            register_violations(req.username@, req.email@, req.password@).len() == 0 && !old(self).reachable() ==> {
                &&& r == Err::<UserResponse, ServiceError>(ServiceError::Repository)
                &&& final(self).users() == old(self).users()
            },
            register_violations(req.username@, req.email@, req.password@).len() > 0 ==> {
                &&& r matches Err(ServiceError::Validation(vs))
                &&& vs@ == register_violations(req.username@, req.email@, req.password@)
                &&& final(self).users() == old(self).users()
            },
            register_violations(req.username@, req.email@, req.password@).len() == 0 && old(self).reachable()
                && email_taken(old(self).users(), req.email@) ==> {
                &&& r == Err::<UserResponse, ServiceError>(ServiceError::Conflict)
                &&& final(self).users() == old(self).users()
            },
            register_violations(req.username@, req.email@, req.password@).len() == 0 && old(self).reachable()
                && !email_taken(old(self).users(), req.email@) ==> match r {
                Ok(view) => registered(old(self).users(), final(self).users(), req.username@, req.email@, req.password@, view)
                    && final(self).users().last().created_at == final(self).users().last().updated_at
                    && clock_reading(final(self).users().last().created_at),
                Err(e) => (e == ServiceError::Hashing || e == ServiceError::Repository)
                    && final(self).users() == old(self).users(),
            },
            r matches Err(ServiceError::Repository) ==> old(self).users().len() > 0 || !old(self).reachable(),
    {
        let violations = req.validate();
        if violations.len() > 0 {
            return Err(ServiceError::Validation(violations));
        }
        match self.directory.find_user_by_email(req.email.as_str()) {
            Err(e) => return Err(e),
            Ok(Some(_)) => return Err(ServiceError::Conflict),
            Ok(None) => {},
        }
        let digest = match PasswordService::hash_password_with_cost(req.password.as_str(), self.hash_cost) {
            Ok(h) => Some(h),
            Err(_) => None,
        };
        let r = self.register_with(req, fresh_id(), digest, clock_now());
        proof {
            if r is Ok {
                assert(self.users().drop_last() =~= old(self).users());
            }
        }
        r
    }

    /// Registers a new user with identifier `id`, password digest `digest`
    /// (none where hashing failed) and creation time `now`, after the field
    /// rules and the email's uniqueness.
    pub fn register_with(&mut self, req: RegisterRequest, id: u128, digest: Option<String>, now: i64) -> (r: Result<UserResponse, ServiceError>)
        requires
            old(self).wf(),
        ensures
            final(self).wf(),
            final(self).secret() == old(self).secret(),
            register_violations(req.username@, req.email@, req.password@).len() == 0 && !old(self).reachable() ==> {
                &&& r == Err::<UserResponse, ServiceError>(ServiceError::Repository)
                &&& final(self).users() == old(self).users()
            },
            register_violations(req.username@, req.email@, req.password@).len() > 0 ==> {
                &&& r matches Err(ServiceError::Validation(vs))
                &&& vs@ == register_violations(req.username@, req.email@, req.password@)
                &&& final(self).users() == old(self).users()
            },
            register_violations(req.username@, req.email@, req.password@).len() == 0 && old(self).reachable()
                && email_taken(old(self).users(), req.email@) ==> {
                &&& r == Err::<UserResponse, ServiceError>(ServiceError::Conflict)
                &&& final(self).users() == old(self).users()
            },
            register_violations(req.username@, req.email@, req.password@).len() == 0 && old(self).reachable()
                && !email_taken(old(self).users(), req.email@) ==> match digest {
                None => r == Err::<UserResponse, ServiceError>(ServiceError::Hashing)
                    && final(self).users() == old(self).users(),
                Some(d) => if id_taken(old(self).users(), id) {
                    r == Err::<UserResponse, ServiceError>(ServiceError::Repository)
                        && final(self).users() == old(self).users()
                } else {
                    &&& final(self).users() == old(self).users().push(new_user(req, id, d, now))
                    &&& r == Ok::<UserResponse, ServiceError>(user_view(new_user(req, id, d, now)))
                },
            },
    {
        let violations = req.validate();
        if violations.len() > 0 {
            return Err(ServiceError::Validation(violations));
        }
        match self.directory.find_user_by_email(req.email.as_str()) {
            Err(e) => return Err(e),
            Ok(Some(_)) => return Err(ServiceError::Conflict),
            Ok(None) => {},
        }
        let password_hash = match digest {
            Some(d) => d,
            None => return Err(ServiceError::Hashing),
        };
        let user = User {
            id,
            username: req.username,
            email: req.email,
            password_hash,
            created_at: now,
            updated_at: now,
        };
        match self.directory.create_user(user) {
            Ok(u) => Ok(UserResponse::from(u)),
            Err(e) => Err(e),
        }
    }

    /// Finds the user registered under `email` and checks `password` against
    /// the stored hash.
    fn authenticate(&self, email: &str, password: &str) -> (r: Result<User, ServiceError>)
        requires
            self.wf(),
        ensures
            r == login_outcome(self.reachable(), self.users(), email@, password@),
    {
        let user = match self.directory.find_user_by_email(email) {
            Err(e) => return Err(e),
            Ok(Some(u)) => u,
            Ok(None) => return Err(ServiceError::InvalidCredentials),
        };
        match PasswordService::verify_password(password, user.password_hash.as_str()) {
            Err(_) => Err(ServiceError::Hashing),
            Ok(false) => Err(ServiceError::InvalidCredentials),
            Ok(true) => Ok(user),
        }
    }

    /// Logs in at time `now`: on the right credentials, a token for the user
    /// issued at `now`, and the user's view.
    pub fn login_at(&self, req: LoginRequest, now: u64) -> (r: Result<AuthResponse, ServiceError>)
        requires
            self.wf(),
            now <= u64::MAX - TOKEN_LIFETIME_SECS,
        ensures
            match login_outcome(self.reachable(), self.users(), req.email@, req.password@) {
                Ok(u) => uuid_parsed(uuid_text(u.id)) == Some(u.id) && (r matches Ok(a) && a.user == user_view(u)
                    && a.token@.len() > 0 && jwt_claims_of(a.token@, self.secret())
                    == signed_fields(uuid_text(u.id), (now + TOKEN_LIFETIME_SECS) as u64, now)),
                Err(e) => r == Err::<AuthResponse, ServiceError>(e),
            },
    {
        let user = match self.authenticate(req.email.as_str(), req.password.as_str()) {
            Ok(u) => u,
            Err(e) => return Err(e),
        };
        let token = self.jwt_service.generate_token_at(user.id, now);
        Ok(AuthResponse { token, user: UserResponse::from(user) })
    }

    /// Logs in at the time the clock gives.
    pub fn login(&self, req: LoginRequest) -> (r: Result<AuthResponse, ServiceError>)
        requires
            self.wf(),
        ensures
            match login_outcome(self.reachable(), self.users(), req.email@, req.password@) {
                Ok(u) => uuid_parsed(uuid_text(u.id)) == Some(u.id) && match r {
                    Ok(a) => a.user == user_view(u) && a.token@.len() > 0 && exists|now: u64|
                        jwt_claims_of(a.token@, self.secret())
                            == #[trigger] signed_fields(uuid_text(u.id), (now + TOKEN_LIFETIME_SECS) as u64, now),
                    Err(e) => e == ServiceError::Token(TokenError::ClockBeforeEpoch),
                },
                Err(e) => r == Err::<AuthResponse, ServiceError>(e),
            },
    {
        let user = match self.authenticate(req.email.as_str(), req.password.as_str()) {
            Ok(u) => u,
            Err(e) => return Err(e),
        };
        match self.jwt_service.generate_token(user.id) {
            Ok(token) => Ok(AuthResponse { token, user: UserResponse::from(user) }),
            Err(e) => Err(ServiceError::Token(e)),
        }
    }
}

/// After a registration adds user `u` whose hash verifies `password`, a login
/// with the same email and password succeeds for `u`, and a token issued for
/// `u` at `now` verifies at `now` with `u`'s identifier as subject.
pub proof fn lemma_register_then_login(
    users: Seq<User>,
    u: User,
    password: Seq<char>,
    token: Seq<char>,
    secret: Seq<char>,
    now: u64,
)
    requires
        users_wf(users.push(u)),
        bcrypt_check(password, u.password_hash@) == Some(true),
        now <= u64::MAX - TOKEN_LIFETIME_SECS,
        jwt_claims_of(token, secret) == signed_fields(uuid_text(u.id), (now + TOKEN_LIFETIME_SECS) as u64, now),
    ensures
        login_verdict(users.push(u), u.email@, password) == Ok::<User, ServiceError>(u),
        token_verdict(token, secret, now)
            == Ok::<(Seq<char>, u64, u64), TokenError>((uuid_text(u.id), (now + TOKEN_LIFETIME_SECS) as u64, now)),
{
    let after = users.push(u);
    let last = users.len() as int;
    assert(after[last] == u);
    assert(email_taken(after, u.email@));
    let j = choose|j: int| 0 <= j < after.len() && (#[trigger] after[j]).email@ == u.email@;
    assert(after[j].email@ == after[last].email@);
    assert(j == last);
}

/// Once a registration under an email has succeeded, the email is taken, so
/// every later registration under it meets a conflict, whatever its username
/// and password: of two registrations under one email, at most one succeeds.
pub proof fn lemma_second_registration_conflicts(users: Seq<User>, u: User)
    ensures
        email_taken(users.push(u), u.email@),
{
    assert(users.push(u)[users.len() as int] == u);
}

/// A login under an unknown email and a login with a wrong password fail
/// with the same error.
pub proof fn lemma_login_failures_identical(
    users: Seq<User>,
    unknown_email: Seq<char>,
    password: Seq<char>,
    email: Seq<char>,
    wrong_password: Seq<char>,
)
    requires
        !email_taken(users, unknown_email),
        email_taken(users, email),
        bcrypt_check(wrong_password, user_with_email(users, email).password_hash@) == Some(false),
    ensures
        login_verdict(users, unknown_email, password) == login_verdict(users, email, wrong_password),
        login_verdict(users, unknown_email, password) == Err::<User, ServiceError>(ServiceError::InvalidCredentials),
{
}

} // verus!
