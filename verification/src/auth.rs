//! Session-derived identity and the role authorization guard.
//!
//! The session carrier is modelled by [`Session`]: a slot that can hold one
//! identity token.  Logging in derives a role from the login, encodes the
//! identity as a token and stores it; extraction reads the slot back and
//! validates the token.  Extraction only reads, so it is idempotent and
//! side-effect-free.  The guard is fail-closed: no identity, an undecodable
//! token and a role outside the required set all surface as the same denial.

pub mod role;

pub use role::Role;

use crate::errors::Error;
use vstd::prelude::*;

verus! {

/// The login payload of the authentication endpoint.
#[derive(Debug)]
pub struct AuthData {
    pub login: String,
}

/// The authenticated principal: login plus derived role.
#[derive(Debug)]
pub struct SlimUser {
    pub login: String,
    pub role: Role,
}

/// The identity a request carries once extraction succeeds.
pub type LoggedUser = SlimUser;

impl PartialEq for SlimUser {
    fn eq(&self, other: &Self) -> bool {
        self.login == other.login && self.role == other.role
    }
}

impl vstd::std_specs::cmp::PartialEqSpecImpl for SlimUser {
    open spec fn obeys_eq_spec() -> bool {
        true
    }

    open spec fn eq_spec(&self, other: &Self) -> bool {
        self.login@ == other.login@ && self.role == other.role
    }
}

/// The identity blob stored in the session carrier: the role as its external
/// numeric discriminant, plus the login.  The carrier is trusted transport;
/// the token is validated on decode, not signed.
#[derive(Debug)]
pub struct IdentityToken {
    pub role: usize,
    pub login: String,
}

/// Spec-level image of a stored token.
pub ghost struct TokenView {
    pub role: usize,
    pub login: Seq<char>,
}

impl View for IdentityToken {
    type V = TokenView;

    open spec fn view(&self) -> TokenView {
        TokenView { role: self.role, login: self.login@ }
    }
}

/// Spec-level image of an identity.
pub ghost struct UserView {
    pub login: Seq<char>,
    pub role: Role,
}

impl View for SlimUser {
    type V = UserView;

    open spec fn view(&self) -> UserView {
        UserView { login: self.login@, role: self.role }
    }
}

/// The role a login is mapped to: the two reserved logins take the elevated
/// roles, every other login is a plain user.
pub open spec fn spec_role_of_login(login: Seq<char>) -> Role {
    if login == "Admin"@ {
        Role::Admin
    } else if login == "Moder"@ {
        Role::Moder
    } else {
        Role::User
    }
}

/// Derives the role for a login.
pub fn role_of_login(login: &str) -> (r: Role)
    ensures
        r == spec_role_of_login(login@),
{
    let owned: String = login.to_owned();
    if owned == "Admin".to_owned() {
        Role::Admin
    } else if owned == "Moder".to_owned() {
        Role::Moder
    } else {
        Role::User
    }
}

/// The token a login is stored under.
pub open spec fn spec_token_of_login(login: Seq<char>) -> TokenView {
    TokenView { role: spec_role_of_login(login).spec_index(), login }
}

/// Decoding a carrier slot into an identity: an empty slot and a token whose
/// role discriminant is out of range both fail.
pub open spec fn spec_extract(slot: Option<TokenView>) -> Option<UserView> {
    match slot {
        None => None,
        Some(t) => match Role::spec_from_index(t.role) {
            None => None,
            Some(r) => Some(UserView { login: t.login, role: r }),
        },
    }
}

/// The session carrier for one request: it can hold one identity token.
pub struct Session {
    token: Option<IdentityToken>,
}

impl View for Session {
    type V = Option<TokenView>;

    closed spec fn view(&self) -> Option<TokenView> {
        match self.token {
            None => None,
            Some(ref t) => Some(t@),
        }
    }
}

impl Session {
    /// A fresh carrier holds no identity.
    pub fn new() -> (s: Session)
        ensures
            s@ is None,
    {
        Session { token: None }
    }

    /// The carrier as the transport handed it over: holding the stored
    /// token, or nothing.
    pub fn resume(token: Option<IdentityToken>) -> (s: Session)
        ensures
            s@ == match token {
                Some(t) => Some(t@),
                None => None,
            },
    {
        Session { token }
    }
}

/// Establishes an identity in the session: the role is derived from the
/// login, and the encoded token replaces whatever the carrier held.
/// Returns the established identity.
pub fn login(session: &mut Session, auth: AuthData) -> (user: SlimUser)
    ensures
        user@ == (UserView { login: auth.login@, role: spec_role_of_login(auth.login@) }),
        final(session)@ == Some(spec_token_of_login(auth.login@)),
{
    let role = role_of_login(auth.login.as_str());
    let token = IdentityToken { role: role.to_index(), login: auth.login.clone() };
    session.token = Some(token);
    SlimUser { login: auth.login, role }
}

/// Clears the identity from the session.
pub fn logout(session: &mut Session)
    ensures
        final(session)@ is None,
{
    session.token = None;
}

/// Reads the current identity back from the session; fails Unauthorized when
/// the carrier holds no decodable identity.  The session is only read.
pub fn me(session: &Session) -> (r: Result<SlimUser, Error>)
    ensures
        match spec_extract(session@) {
            Some(u) => r matches Ok(user) && user@ == u,
            None => r matches Err(e) && e is Unauth,
        },
{
    match &session.token {
        None => Err(Error::Unauth("no identity in session".to_owned())),
        Some(token) => match Role::from_index(token.role) {
            None => Err(Error::Unauth("no identity in session".to_owned())),
            Some(role) => Ok(SlimUser { login: token.login.clone(), role }),
        },
    }
}

/// The roles a session grants: the decoded identity's role, or none at all.
pub open spec fn spec_roles(slot: Option<TokenView>) -> Seq<Role> {
    match spec_extract(slot) {
        Some(u) => seq![u.role],
        None => Seq::empty(),
    }
}

/// The role extractor the guard runs on every request: a session that holds a
/// decodable identity grants that identity's role, any other session grants
/// nothing.
pub fn extractor(session: &Session) -> (roles: Vec<Role>)
    ensures
        roles@ == spec_roles(session@),
{
    let mut roles: Vec<Role> = Vec::new();
    match me(session) {
        Ok(user) => {
            roles.push(user.role);
        },
        Err(_) => {},
    }
    assert(roles@ =~= spec_roles(session@));
    roles
}

/// Membership of one of the held roles in the required set.
pub open spec fn spec_any_role(held: Seq<Role>, required: Seq<Role>) -> bool {
    exists|i: int| 0 <= i < held.len() && required.contains(held[i])
}

/// The membership test of the guard: does any held role belong to the
/// required set?  Holding no roles denies.
pub fn has_any_role(held: &[Role], required: &[Role]) -> (allow: bool)
    ensures
        allow == spec_any_role(held@, required@),
{
    let mut i: usize = 0;
    while i < held.len()
        invariant
            i <= held.len(),
            forall|x: int| 0 <= x < i ==> !required@.contains(held@[x]),
        decreases held.len() - i,
    {
        let mut j: usize = 0;
        while j < required.len()
            invariant
                i < held.len(),
                j <= required.len(),
                forall|y: int| 0 <= y < j ==> required@[y] != held@[i as int],
            decreases required.len() - j,
        {
            if required[j] == held[i] {
                return true;
            }
            j += 1;
        }
        i += 1;
    }
    false
}

/// Whether an identity may pass a guard that requires one of `required`.
pub open spec fn spec_authorize(user: Option<UserView>, required: Seq<Role>) -> bool {
    match user {
        None => false,
        Some(u) => required.contains(u.role),
    }
}

/// The role authorization guard as a pure function: allow exactly when an
/// identity exists and its role is in the required set; fail closed
/// otherwise.
pub fn authorize(user: Option<&SlimUser>, required: &[Role]) -> (allow: bool)
    ensures
        allow == spec_authorize(
            match user {
                Some(u) => Some(u@),
                None => None,
            },
            required@,
        ),
{
    match user {
        None => false,
        Some(u) => {
            let mut held: Vec<Role> = Vec::new();
            held.push(u.role);
            let allow = has_any_role(held.as_slice(), required);
            proof {
                assert(held@ =~= seq![u.role]);
                if required@.contains(u@.role) {
                    assert(spec_any_role(held@, required@)) by {
                        assert(required@.contains(held@[0]));
                    }
                }
            }
            allow
        },
    }
}

/// Reading the identity back right after login yields exactly the identity
/// that login established: the login itself plus its derived role.
pub proof fn lemma_me_after_login(login: Seq<char>)
    ensures
        spec_extract(Some(spec_token_of_login(login))) == Some(
            UserView { login, role: spec_role_of_login(login) },
        ),
{
    role::lemma_role_roundtrip(spec_role_of_login(login));
}

/// After a logout the carrier is empty, so a subsequent extraction fails and
/// the guard denies every required set.
pub proof fn lemma_denied_after_logout(required: Seq<Role>)
    ensures
        spec_extract(None) is None,
        !spec_authorize(spec_extract(None), required),
        spec_roles(None) == Seq::<Role>::empty(),
{
}

} // verus!
