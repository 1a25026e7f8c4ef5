//! Local identity: user store, registration, login and the in-memory session.
pub mod base64_bytes;
pub mod crypto;

use vstd::prelude::*;

use vstd::string::{StringExecFns, StringSliceAdditionalSpecFns};

use crate::auth::crypto::{
    accepts, argon2_phc_check, argon2id_key, bool_result_view, derive_vault_key, generate_salt,
    hash_password, key_result_view, spec_argon2_derive, verify_password, MAX_PWD_LEN,
};
use crate::system::{is_uuid_text, new_uuid_v4, unix_time_secs};
use crate::text::{chars_of, decimal, format_u64, str_eq, trim, trim_chars};

verus! {

broadcast use vstd::string::group_string_axioms;

/// A registered user, as kept in the user store.
pub struct UserProfile {
    pub id: String,
    pub username: String,
    pub password_hash: String,
    pub vault_salt: Vec<u8>,
    pub created_at: String,
}

pub struct UserProfileView {
    pub id: Seq<char>,
    pub username: Seq<char>,
    pub password_hash: Seq<char>,
    pub vault_salt: Seq<u8>,
    pub created_at: Seq<char>,
}

impl View for UserProfile {
    type V = UserProfileView;

    open spec fn view(&self) -> UserProfileView {
        UserProfileView {
            id: self.id@,
            username: self.username@,
            password_hash: self.password_hash@,
            vault_salt: self.vault_salt@,
            created_at: self.created_at@,
        }
    }
}

/// All registered users, in registration order.
pub struct UserStore {
    pub users: Vec<UserProfile>,
}

/// The views of the users of a store.
pub open spec fn users_view(users: Seq<UserProfile>) -> Seq<UserProfileView> {
    users.map_values(|u: UserProfile| u@)
}

/// The active session: held in memory only, never persisted.
pub struct Session {
    pub user_id: String,
    pub username: String,
    pub vault_key: [u8; 32],
}

pub struct SessionView {
    pub user_id: Seq<char>,
    pub username: Seq<char>,
    pub vault_key: Seq<u8>,
}

impl View for Session {
    type V = SessionView;

    open spec fn view(&self) -> SessionView {
        SessionView { user_id: self.user_id@, username: self.username@, vault_key: self.vault_key@ }
    }
}

/// What the interface learns of a session.
pub struct SessionInfo {
    pub user_id: String,
    pub username: String,
}

pub struct SessionInfoView {
    pub user_id: Seq<char>,
    pub username: Seq<char>,
}

impl View for SessionInfo {
    type V = SessionInfoView;

    open spec fn view(&self) -> SessionInfoView {
        SessionInfoView { user_id: self.user_id@, username: self.username@ }
    }
}

// ---------------------------------------------------------------------------
// Specification
// ---------------------------------------------------------------------------

pub open spec fn registration_input_message() -> Seq<char> {
    "Username required, password must be at least 8 characters"@
}

pub open spec fn username_taken_message() -> Seq<char> {
    "Username already taken"@
}

pub open spec fn invalid_credentials_message() -> Seq<char> {
    "Invalid credentials"@
}

/// Registration input is acceptable: a username that is not blank and a
/// password of at least 8 bytes.
pub open spec fn valid_registration(username: Seq<char>, password: Seq<u8>) -> bool {
    trim(username).len() > 0 && password.len() >= 8
}

/// Some user has exactly this name.
pub open spec fn username_taken(users: Seq<UserProfileView>, username: Seq<char>) -> bool {
    exists|i: int| 0 <= i < users.len() && #[trigger] users[i].username == username
}

/// Index of the first user with this name, or the number of users.
pub open spec fn first_user_index(users: Seq<UserProfileView>, username: Seq<char>) -> int
    decreases users.len(),
{
    if users.len() == 0 {
        0
    } else if users[0].username == username {
        0
    } else {
        1 + first_user_index(users.drop_first(), username)
    }
}

/// The info and session for a user and a derived key.
pub open spec fn session_of(u: UserProfileView, key: Seq<u8>) -> (SessionInfoView, SessionView) {
    (
        SessionInfoView { user_id: u.id, username: u.username },
        SessionView { user_id: u.id, username: u.username, vault_key: key },
    )
}

/// What logging in gives: the first user with the name must exist and the
/// password must check out against the stored hash; the vault key is then
/// derived from the password and the user's salt.
pub open spec fn spec_login(users: Seq<UserProfileView>, username: Seq<char>, password: Seq<u8>) -> Result<
    (SessionInfoView, SessionView),
    Seq<char>,
> {
    let i = first_user_index(users, username);
    if i < 0 || i >= users.len() {
        Err(invalid_credentials_message())
    } else {
        match argon2_phc_check(password, users[i].password_hash) {
            Err(e) => Err(e),
            Ok(false) => Err(invalid_credentials_message()),
            Ok(true) => match spec_argon2_derive(password, users[i].vault_salt) {
                Err(e) => Err(e),
                Ok(key) => Ok(session_of(users[i], key)),
            },
        }
    }
}

/// The view of the outcome of logging in or registering.
pub open spec fn auth_result_view(r: Result<(SessionInfo, Session), String>) -> Result<
    (SessionInfoView, SessionView),
    Seq<char>,
> {
    match r {
        Ok((info, s)) => Ok((info@, s@)),
        Err(e) => Err(e@),
    }
}

pub proof fn lemma_first_user_index(users: Seq<UserProfileView>, username: Seq<char>)
    ensures
        0 <= first_user_index(users, username) <= users.len(),
        forall|k: int|
            0 <= k < first_user_index(users, username) ==> #[trigger] users[k].username != username,
        first_user_index(users, username) < users.len() ==> users[first_user_index(
            users,
            username,
        )].username == username,
    decreases users.len(),
{
    if users.len() > 0 && users[0].username != username {
        lemma_first_user_index(users.drop_first(), username);
        assert forall|k: int| 0 <= k < first_user_index(users, username) implies #[trigger] users[k].username
            != username by {
            if k > 0 {
                assert(users[k] == users.drop_first()[k - 1]);
            }
        }
    }
}

pub proof fn lemma_first_user_index_at(users: Seq<UserProfileView>, username: Seq<char>, k: int)
    requires
        0 <= k <= users.len(),
        forall|j: int| 0 <= j < k ==> #[trigger] users[j].username != username,
        k == users.len() || users[k].username == username,
    ensures
        first_user_index(users, username) == k,
{
    lemma_first_user_index(users, username);
    let f = first_user_index(users, username);
    if f < k {
        assert(users[f].username == username);
    }
    if k < f {
        assert(users[k].username != username);
    }
}

// ---------------------------------------------------------------------------
// Implementation
// ---------------------------------------------------------------------------

/// The current time as decimal seconds since the Unix epoch.
pub fn now_ts() -> (ts: String)
    ensures
        exists|t: u64| ts@ == decimal(t as nat),
{
    let secs = unix_time_secs();
    format_u64(secs)
}

fn find_user(users: &Vec<UserProfile>, username: &str) -> (i: usize)
    ensures
        i == first_user_index(users_view(users@), username@),
{
    let ghost uv = users_view(users@);
    let mut i: usize = 0;
    while i < users.len()
        invariant
            uv == users_view(users@),
            uv.len() == users@.len(),
            i <= users@.len(),
            forall|j: int| 0 <= j < i ==> #[trigger] uv[j].username != username@,
        decreases users@.len() - i,
    {
        if str_eq(users[i].username.as_str(), username) {
            proof {
                lemma_first_user_index_at(uv, username@, i as int);
            }
            return i;
        }
        i += 1;
    }
    proof {
        lemma_first_user_index_at(uv, username@, i as int);
    }
    i
}

/// Logs a user in against the store: the first user with the name must
/// exist and the password must match; the vault key is derived anew.
pub fn login(store: &UserStore, username: &str, password: &str) -> (res: Result<
    (SessionInfo, Session),
    String,
>)
    ensures
        auth_result_view(res) == spec_login(
            users_view(store.users@),
            username@,
            password.spec_bytes(),
        ),
{
    let ghost uv = users_view(store.users@);
    let i = find_user(&store.users, username);
    if i >= store.users.len() {
        return Err(String::from_str("Invalid credentials"));
    }
    let user = &store.users[i];
    assert(uv[i as int] == user@);
    match verify_password(password, user.password_hash.as_str()) {
        Err(e) => {
            return Err(e);
        },
        Ok(false) => {
            return Err(String::from_str("Invalid credentials"));
        },
        Ok(true) => {},
    }
    let vault_key = match derive_vault_key(password, user.vault_salt.as_slice()) {
        Ok(k) => k,
        Err(e) => {
            return Err(e);
        },
    };
    let info = SessionInfo { user_id: user.id.clone(), username: user.username.clone() };
    let session = Session { user_id: user.id.clone(), username: user.username.clone(), vault_key };
    Ok((info, session))
}

/// Checks registration input: the username must not be blank and the
/// password must have at least 8 bytes.
pub fn check_registration_input(username: &str, password: &str) -> (res: Result<(), String>)
    ensures
        valid_registration(username@, password.spec_bytes()) ==> res is Ok,
        !valid_registration(username@, password.spec_bytes()) ==> (res matches Err(e) && e@
            == registration_input_message()),
{
    let name_chars = chars_of(username);
    let trimmed = trim_chars(name_chars.as_slice());
    if trimmed.len() == 0 || password.as_bytes().len() < 8 {
        return Err(String::from_str("Username required, password must be at least 8 characters"));
    }
    Ok(())
}

/// Registers a new user in the store and opens a session for it.
///
/// Refused, with the store unchanged, for a blank username or a password
/// under 8 bytes, for a name already registered, and for a password Argon2
/// refuses. Otherwise the user (fresh id, password hash, random 16-byte salt,
/// creation time) is appended, and logging in with the same name and
/// password gives the same session back.
pub fn register(store: &mut UserStore, username: &str, password: &str) -> (res: Result<
    (SessionInfo, Session),
    String,
>)
    ensures
        !valid_registration(username@, password.spec_bytes()) ==> auth_result_view(res) == Err::<
            (SessionInfoView, SessionView),
            Seq<char>,
        >(registration_input_message()),
        valid_registration(username@, password.spec_bytes()) && username_taken(
            users_view(old(store).users@),
            username@,
        ) ==> auth_result_view(res) == Err::<(SessionInfoView, SessionView), Seq<char>>(
            username_taken_message(),
        ),
        valid_registration(username@, password.spec_bytes()) && !username_taken(
            users_view(old(store).users@),
            username@,
        ) && password.spec_bytes().len() > MAX_PWD_LEN ==> auth_result_view(res) == Err::<
            (SessionInfoView, SessionView),
            Seq<char>,
        >(crate::auth::crypto::invalid_password_message()),
        valid_registration(username@, password.spec_bytes()) && !username_taken(
            users_view(old(store).users@),
            username@,
        ) && password.spec_bytes().len() <= MAX_PWD_LEN ==> res is Ok,
        res is Err ==> users_view(final(store).users@) == users_view(old(store).users@),
        res matches Ok((info, s)) ==> {
            let users = users_view(final(store).users@);
            let u = users.last();
            &&& users == users_view(old(store).users@).push(u)
            &&& u.username == username@
            &&& is_uuid_text(u.id)
            &&& u.vault_salt.len() == 16
            &&& accepts(argon2_phc_check(password.spec_bytes(), u.password_hash))
            &&& exists|t: u64| u.created_at == decimal(t as nat)
            &&& (info@, s@) == session_of(u, argon2id_key(password.spec_bytes(), u.vault_salt))
        },
        res matches Ok((info, s)) ==> spec_login(
            users_view(final(store).users@),
            username@,
            password.spec_bytes(),
        ) == Ok::<(SessionInfoView, SessionView), Seq<char>>((info@, s@)),
{
    if let Err(e) = check_registration_input(username, password) {
        return Err(e);
    }
    let ghost old_users = users_view(store.users@);
    let i = find_user(&store.users, username);
    proof {
        lemma_first_user_index(old_users, username@);
    }
    if i < store.users.len() {
        return Err(String::from_str("Username already taken"));
    }
    assert(!username_taken(old_users, username@));
    let password_hash = match hash_password(password) {
        Ok(h) => h,
        Err(e) => {
            return Err(e);
        },
    };
    let vault_salt = generate_salt();
    let vault_key = match derive_vault_key(password, &vault_salt) {
        Ok(k) => k,
        Err(e) => {
            return Err(e);
        },
    };
    let id = new_uuid_v4();
    let created_at = now_ts();
    let user = UserProfile {
        id: id.clone(),
        username: String::from_str(username),
        password_hash,
        vault_salt: vstd::slice::slice_to_vec(&vault_salt),
        created_at,
    };
    let info = SessionInfo { user_id: id.clone(), username: String::from_str(username) };
    let session = Session { user_id: id, username: String::from_str(username), vault_key };
    let ghost u = user@;
    store.users.push(user);
    proof {
        let users = users_view(store.users@);
        assert(users =~= old_users.push(u));
        assert forall|j: int| 0 <= j < old_users.len() implies #[trigger] users[j].username
            != username@ by {
            assert(users[j] == old_users[j]);
        }
        lemma_first_user_index_at(users, username@, old_users.len() as int);
    }
    Ok((info, session))
}

/// Ends the session.
pub fn logout(session: &mut Option<Session>)
    ensures
        *final(session) is None,
{
    *session = None;
}

/// What the interface learns of the current session, if any.
pub fn get_session(session: &Option<Session>) -> (info: Option<SessionInfo>)
    ensures
        session is None ==> info is None,
        session matches Some(s) ==> (info matches Some(i) && i@ == SessionInfoView {
            user_id: s.user_id@,
            username: s.username@,
        }),
{
    match session {
        Some(s) => Some(SessionInfo { user_id: s.user_id.clone(), username: s.username.clone() }),
        None => None,
    }
}

} // verus!
