//! User records and the authentication service.
//!
//! The store keeps one record per user, with username, email and the
//! salted password hash; usernames, emails and ids are unique.
//! Registration derives a fresh salted hash and inserts a record; login
//! looks the user up by email, verifies the password against the stored
//! hash, and issues a signed token good for twenty-four hours.

use crate::errors::ApiError;
use crate::decimal::{dec_str_of, u128_to_string};
use crate::hashing::{
    generate_salt, hash_of, hash_password, is_valid_salt, password_verifies, verify_password,
    MAX_PASSWORD_CHARS,
};
use crate::token::{decoded_claims, encode_token, jwt_of};
use vstd::prelude::*;

verus! {

/// Seconds a freshly issued token stays valid.
pub const TOKEN_LIFETIME: u64 = 86400;

/// What a registration request carries.
pub struct RegisterPayload {
    pub username: String,
    pub email: String,
    pub password: String,
}

/// What a login request carries.
pub struct LoginPayload {
    pub email: String,
    pub password: String,
}

/// What a successful login returns.
pub struct AuthResponse {
    pub token: String,
}

/// The mathematical image of one user record.
pub ghost struct UserView {
    pub id: u128,
    pub username: Seq<char>,
    pub email: Seq<char>,
    pub password_hash: Seq<char>,
}

/// One stored user: id, username, email and the salted password hash.
/// The hash is never exposed outside the store.
pub struct User {
    pub id: u128,
    pub username: String,
    pub email: String,
    pub password_hash: String,
}

impl View for User {
    type V = UserView;

    open spec fn view(&self) -> UserView {
        UserView {
            id: self.id,
            username: self.username@,
            email: self.email@,
            password_hash: self.password_hash@,
        }
    }
}

/// Some record in `s` carries this email.
pub open spec fn email_taken(s: Seq<UserView>, email: Seq<char>) -> bool {
    exists|i: int| 0 <= i < s.len() && (#[trigger] s[i]).email == email
}

/// Some record in `s` carries this username.
pub open spec fn username_taken(s: Seq<UserView>, username: Seq<char>) -> bool {
    exists|i: int| 0 <= i < s.len() && (#[trigger] s[i]).username == username
}

/// The credential store: user records with unique ids, usernames and
/// emails. Ids are handed out by a counter, so every stored id lies
/// below `next_id`.
pub struct UserStore {
    pub users: Vec<User>,
    pub next_id: u128,
}

impl UserStore {
    /// The records as a sequence of their mathematical images.
    pub open spec fn view(&self) -> Seq<UserView> {
        self.users@.map_values(|u: User| u@)
    }

    /// Well-formedness: ids, usernames and emails are pairwise distinct,
    /// and every id lies below the counter.
    pub open spec fn wf(&self) -> bool {
        &&& forall|i: int, j: int|
            0 <= i < j < self.view().len() ==> (#[trigger] self.view()[i]).id
                != (#[trigger] self.view()[j]).id && self.view()[i].email != self.view()[j].email
                && self.view()[i].username != self.view()[j].username
        &&& forall|i: int|
            0 <= i < self.view().len() ==> (#[trigger] self.view()[i]).id < self.next_id
    }

    /// An empty store.
    pub fn new() -> (s: Self)
        ensures
            s.wf(),
            s.view() =~= Seq::<UserView>::empty(),
            s.next_id == 0,
    {
        UserStore { users: Vec::new(), next_id: 0 }
    }

    /// Registers a user, hashing the password with the given salt.
    /// Fails with `Conflict` exactly when the email or the username is
    /// already taken; otherwise appends one record whose hash is the
    /// salted hash of the password, and hands back the fresh id.
    #[verifier::loop_isolation(false)]
    pub fn register_with_salt(&mut self, payload: &RegisterPayload, salt: &str) -> (r: Result<
        u128,
        ApiError,
    >)
        requires
            old(self).wf(),
            is_valid_salt(salt@),
            old(self).next_id < u128::MAX,
            payload.password@.len() <= MAX_PASSWORD_CHARS,
        ensures
            final(self).wf(),
            r is Err <==> (email_taken(old(self).view(), payload.email@) || username_taken(
                old(self).view(),
                payload.username@,
            )),
            r matches Err(e) ==> e == ApiError::Conflict && *final(self) == *old(self),
            r matches Ok(id) ==> ({
                &&& id == old(self).next_id
                &&& final(self).next_id == old(self).next_id + 1
                &&& final(self).view() =~= old(self).view().push(
                    UserView {
                        id,
                        username: payload.username@,
                        email: payload.email@,
                        password_hash: hash_of(payload.password@, salt@),
                    },
                )
                &&& password_verifies(payload.password@, hash_of(payload.password@, salt@))
                &&& forall|other: Seq<char>|
                    other != payload.password@ ==> !password_verifies(
                        other,
                        hash_of(payload.password@, salt@),
                    )
            }),
    {
        let n = self.users.len();
        let mut i: usize = 0;
        while i < n
            invariant
                n == self.users.len(),
                0 <= i <= n,
                forall|k: int|
                    0 <= k < i ==> (#[trigger] self.view()[k]).email != payload.email@
                        && self.view()[k].username != payload.username@,
            decreases n - i,
        {
            let same_email = self.users[i].email == payload.email;
            let same_username = self.users[i].username == payload.username;
            if same_email || same_username {
                proof {
                    if same_email {
                        assert((#[trigger] self.view()[i as int]).email == payload.email@);
                    } else {
                        assert((#[trigger] self.view()[i as int]).username == payload.username@);
                    }
                }
                return Err(ApiError::Conflict);
            }
            i = i + 1;
        }
        let hash = hash_password(payload.password.as_str(), salt);
        let id = self.next_id;
        let user = User {
            id,
            username: payload.username.clone(),
            email: payload.email.clone(),
            password_hash: hash,
        };
        let ghost prev = self.view();
        let ghost added = UserView {
            id,
            username: payload.username@,
            email: payload.email@,
            password_hash: hash_of(payload.password@, salt@),
        };
        self.users.push(user);
        self.next_id = id + 1;
        proof {
            let v = self.view();
            assert(v =~= prev.push(added));
            assert forall|a: int, b: int| 0 <= a < b < v.len() implies (#[trigger] v[a]).id
                != (#[trigger] v[b]).id && v[a].email != v[b].email && v[a].username
                != v[b].username by {
                if b < prev.len() {
                    assert(v[a] == prev[a] && v[b] == prev[b]);
                } else {
                    assert(v[b] == added);
                    assert(v[a] == prev[a]);
                    assert(prev[a].id < id);
                    assert(prev[a].email != payload.email@);
                    assert(prev[a].username != payload.username@);
                }
            }
            assert forall|a: int| 0 <= a < v.len() implies (#[trigger] v[a]).id
                < self.next_id by {
                if a < prev.len() {
                    assert(v[a] == prev[a]);
                }
            }
        }
        Ok(id)
    }

    /// Registers a user with a fresh random salt. Fails with `Conflict`
    /// exactly when the email or the username is already taken; otherwise
    /// appends one record whose stored hash verifies against the given
    /// password and against no other.
    pub fn register(&mut self, payload: &RegisterPayload) -> (r: Result<u128, ApiError>)
        requires
            old(self).wf(),
            old(self).next_id < u128::MAX,
            payload.password@.len() <= MAX_PASSWORD_CHARS,
        ensures
            final(self).wf(),
            r is Err <==> (email_taken(old(self).view(), payload.email@) || username_taken(
                old(self).view(),
                payload.username@,
            )),
            r matches Err(e) ==> e == ApiError::Conflict && *final(self) == *old(self),
            r matches Ok(id) ==> ({
                &&& id == old(self).next_id
                &&& final(self).next_id == old(self).next_id + 1
                &&& final(self).view().len() == old(self).view().len() + 1
                &&& final(self).view() =~= old(self).view().push(final(self).view().last())
                &&& final(self).view().last().id == id
                &&& final(self).view().last().username == payload.username@
                &&& final(self).view().last().email == payload.email@
                &&& password_verifies(payload.password@, final(self).view().last().password_hash)
                &&& forall|other: Seq<char>|
                    other != payload.password@ ==> !password_verifies(
                        other,
                        final(self).view().last().password_hash,
                    )
            }),
    {
        let salt = generate_salt();
        self.register_with_salt(payload, salt.as_str())
    }

    /// Login: looks the user up by email and verifies the password.
    /// Fails with `NotFound` exactly when no record carries the email,
    /// and with `InvalidCredential` exactly when one does but the
    /// password does not verify against its hash; otherwise issues a
    /// token whose subject is the user's id in decimal and whose expiry
    /// lies `TOKEN_LIFETIME` seconds past `now`.
    #[verifier::loop_isolation(false)]
    pub fn login(&self, payload: &LoginPayload, now: u64, secret: &[u8]) -> (r: Result<
        AuthResponse,
        ApiError,
    >)
        requires
            self.wf(),
            now + TOKEN_LIFETIME <= u64::MAX,
        ensures
            r == Err::<AuthResponse, ApiError>(ApiError::NotFound) <==> !email_taken(
                self.view(),
                payload.email@,
            ),
            r == Err::<AuthResponse, ApiError>(ApiError::InvalidCredential) <==> exists|i: int|
                0 <= i < self.view().len() && (#[trigger] self.view()[i]).email == payload.email@
                    && !password_verifies(payload.password@, self.view()[i].password_hash),
            r is Ok <==> exists|i: int|
                0 <= i < self.view().len() && (#[trigger] self.view()[i]).email == payload.email@
                    && password_verifies(payload.password@, self.view()[i].password_hash),
            r matches Ok(resp) ==> forall|i: int|
                0 <= i < self.view().len() && (#[trigger] self.view()[i]).email == payload.email@
                    ==> resp.token@ == jwt_of(
                    dec_str_of(self.view()[i].id as nat),
                    (now + TOKEN_LIFETIME) as u64,
                    secret@,
                ) && decoded_claims(resp.token@, secret@) == Some(
                    (dec_str_of(self.view()[i].id as nat), (now + TOKEN_LIFETIME) as u64),
                ),
    {
        let n = self.users.len();
        let mut i: usize = 0;
        while i < n
            invariant
                n == self.users.len(),
                0 <= i <= n,
                forall|k: int| 0 <= k < i ==> (#[trigger] self.view()[k]).email != payload.email@,
            decreases n - i,
        {
            if self.users[i].email == payload.email {
                let ok = verify_password(
                    payload.password.as_str(),
                    self.users[i].password_hash.as_str(),
                );
                proof {
                    assert((#[trigger] self.view()[i as int]).email == payload.email@);
                    assert forall|j: int|
                        0 <= j < self.view().len() && (#[trigger] self.view()[j]).email
                            == payload.email@ implies j == i as int by {
                        if j < i as int {
                            assert(self.view()[j].email != self.view()[i as int].email);
                        } else if j > i as int {
                            assert(self.view()[i as int].email != self.view()[j].email);
                        }
                    }
                }
                if !ok {
                    return Err(ApiError::InvalidCredential);
                }
                let sub = u128_to_string(self.users[i].id);
                let token = encode_token(sub.as_str(), now + TOKEN_LIFETIME, secret);
                return Ok(AuthResponse { token });
            }
            i = i + 1;
        }
        Err(ApiError::NotFound)
    }
}

/// Registering a user puts its email into the store, so a second
/// registration with the same email finds the email taken and must,
/// by the contract of `register`, fail with `Conflict`.
pub proof fn lemma_email_taken_after_register(before: Seq<UserView>, u: UserView)
    ensures
        email_taken(before.push(u), u.email),
        username_taken(before.push(u), u.username),
{
    let after = before.push(u);
    assert(after[before.len() as int] == u);
}

} // verus!
