//! Session permissions: what a protected route requires, the guard's
//! decision on a request, and the choice of a user's login address.
use vstd::prelude::*;

verus! {

/// Which permissions a protected route asks of a session.
#[derive(Clone, Copy)]
pub struct AuthConfig {
    /// Require the `has_admin` permission.
    pub require_admin: bool,
    /// Require the `has_set_score` permission.
    pub require_set_score: bool,
}

impl Default for AuthConfig {
    fn default() -> (r: Self)
        ensures
            !r.require_admin,
            !r.require_set_score,
    {
        AuthConfig { require_admin: false, require_set_score: false }
    }
}

impl AuthConfig {
    /// Requires the admin permission.
    pub fn require_admin() -> (r: Self)
        ensures
            r.require_admin,
            !r.require_set_score,
    {
        AuthConfig { require_admin: true, require_set_score: false }
    }

    /// Requires the set-score permission.
    pub fn require_set_score() -> (r: Self)
        ensures
            !r.require_admin,
            r.require_set_score,
    {
        AuthConfig { require_admin: false, require_set_score: true }
    }

    /// Requires both permissions.
    pub fn require_both() -> (r: Self)
        ensures
            r.require_admin,
            r.require_set_score,
    {
        AuthConfig { require_admin: true, require_set_score: true }
    }

    /// Requires a valid session and no permission.
    pub fn require_authenticated() -> (r: Self)
        ensures
            !r.require_admin,
            !r.require_set_score,
    {
        AuthConfig::default()
    }
}

/// The authentication guard of a group of routes.
pub struct Authentication {
    pub config: AuthConfig,
}

impl Authentication {
    pub fn new(config: AuthConfig) -> (r: Self)
        ensures
            r.config == config,
    {
        Authentication { config }
    }
}

/// What the store says of a session cookie.
pub struct VerifiedSession {
    /// The cookie names a stored session.
    pub verified: bool,
    pub has_admin: bool,
    pub has_set_score: bool,
}

/// A stored login session.
pub struct UserSessions {
    pub id: String,
    pub user_id: i64,
    pub has_admin: bool,
    pub has_set_score: bool,
}

/// Relies on uuid: `Uuid::new_v4` draws a random identifier, which
/// `to_string` writes out. Nothing is promised of its value.
#[verifier::external_body]
fn random_session_id() -> (r: String) {
    uuid::Uuid::new_v4().to_string()
}

impl UserSessions {
    /// A new session of the user, under a fresh random identifier.
    pub fn new(user_id: i64, has_admin: bool, has_set_score: bool) -> (r: Self)
        ensures
            r.user_id == user_id,
            r.has_admin == has_admin,
            r.has_set_score == has_set_score,
    {
        UserSessions { id: random_session_id(), user_id, has_admin, has_set_score }
    }
}

impl VerifiedSession {
    /// The verdict on a cookie, given the stored session it names, if any:
    /// verified with that session's permissions, or unverified with none.
    pub fn from_lookup(found: Option<&UserSessions>) -> (r: Self)
        ensures
            match found {
                Some(s) => r.verified && r.has_admin == s.has_admin && r.has_set_score
                    == s.has_set_score,
                None => !r.verified && !r.has_admin && !r.has_set_score,
            },
    {
        match found {
            Some(s) => VerifiedSession {
                verified: true,
                has_admin: s.has_admin,
                has_set_score: s.has_set_score,
            },
            None => VerifiedSession { verified: false, has_admin: false, has_set_score: false },
        }
    }
}

/// A registered user.
pub struct Users {
    /// The store's identifier, once the user is stored.
    pub id: Option<i64>,
    pub email: String,
    pub has_admin: bool,
    pub has_set_score: bool,
}

impl Users {
    /// A user not yet stored.
    pub fn new(email: String, has_admin: bool, has_set_score: bool) -> (r: Self)
        ensures
            r.id is None,
            r.email == email,
            r.has_admin == has_admin,
            r.has_set_score == has_set_score,
    {
        Users { id: None, email, has_admin, has_set_score }
    }

    /// A new session of this stored user, with the user's permissions.
    pub fn new_session(self) -> (r: UserSessions)
        requires
            self.id is Some,
        ensures
            r.user_id == self.id->0,
            r.has_admin == self.has_admin,
            r.has_set_score == self.has_set_score,
    {
        let user_id = match self.id {
            Some(id) => id,
            None => 0,
        };
        UserSessions::new(user_id, self.has_admin, self.has_set_score)
    }
}

/// An email address of a user, as the identity provider reports it.
pub struct ProviderEmail {
    pub email: String,
    pub verified: bool,
}

/// `s` ends with `suffix`.
pub open spec fn ends_with(s: Seq<char>, suffix: Seq<char>) -> bool {
    s.len() >= suffix.len() && s.subrange(s.len() - suffix.len(), s.len() as int) == suffix
}

/// Whether `s` ends with `suffix`.
pub fn has_suffix(s: &str, suffix: &str) -> (r: bool)
    ensures
        r == ends_with(s@, suffix@),
{
    let n = s.unicode_len();
    let m = suffix.unicode_len();
    if n < m {
        return false;
    }
    let tail = s.substring_char(n - m, n).to_owned();
    tail == suffix.to_owned()
}

/// The domain whose addresses are preferred as a user's login address.
pub open spec fn preferred_domain() -> Seq<char> {
    "utcsheffield.org.uk"@
}

/// A verified address on the preferred domain.
pub open spec fn is_preferred(e: ProviderEmail) -> bool {
    e.verified && ends_with(e.email@, preferred_domain())
}

/// Picks the address a user logs in with: the last verified address on the
/// preferred domain if there is one, else the first verified address;
/// `None` when no address is verified.
pub fn choose_email(emails: &Vec<ProviderEmail>) -> (r: Option<String>)
    ensures
        match r {
            None => forall|i: int| 0 <= i < emails@.len() ==> !(#[trigger] emails@[i]).verified,
            Some(e) => exists|i: int|
                0 <= i < emails@.len() && (#[trigger] emails@[i]).email@ == e@ && emails@[i].verified
                    && if exists|j: int| 0 <= j < emails@.len() && is_preferred(#[trigger] emails@[j]) {
                    is_preferred(emails@[i]) && forall|j: int|
                        i < j < emails@.len() ==> !is_preferred(#[trigger] emails@[j])
                } else {
                    forall|j: int| 0 <= j < i ==> !(#[trigger] emails@[j]).verified
                },
        },
{
    proof {
        reveal_strlit("utcsheffield.org.uk");
    }
    let mut first: Option<usize> = None;
    let mut last_preferred: Option<usize> = None;
    let mut i: usize = 0;
    while i < emails.len()
        invariant
            i <= emails.len(),
            match first {
                None => forall|j: int| 0 <= j < i ==> !(#[trigger] emails@[j]).verified,
                Some(f) => f < i && emails@[f as int].verified && forall|j: int|
                    0 <= j < f ==> !(#[trigger] emails@[j]).verified,
            },
            match last_preferred {
                None => forall|j: int| 0 <= j < i ==> !is_preferred(#[trigger] emails@[j]),
                Some(p) => p < i && is_preferred(emails@[p as int]) && forall|j: int|
                    p < j < i ==> !is_preferred(#[trigger] emails@[j]),
            },
        decreases emails.len() - i,
    {
        let e = &emails[i];
        if e.verified {
            if first.is_none() {
                first = Some(i);
            }
            if has_suffix(e.email.as_str(), "utcsheffield.org.uk") {
                last_preferred = Some(i);
            }
        }
        i = i + 1;
    }
    match last_preferred {
        Some(p) => {
            assert(is_preferred(emails@[p as int]));
            Some(emails[p].email.clone())
        },
        None => match first {
            Some(f) => Some(emails[f].email.clone()),
            None => None,
        },
    }
}

/// The answer of the authentication guard to a request.
#[derive(PartialEq, Eq, Structural, Debug, Clone, Copy)]
pub enum AuthDecision {
    /// The request carries no session cookie.
    MissingCookie,
    /// The cookie names no stored session.
    InvalidSession,
    /// The session lacks the admin permission the route requires.
    AdminRequired,
    /// The session lacks the set-score permission the route requires.
    SetScoreRequired,
    /// The request may proceed.
    Allowed,
}

impl AuthDecision {
    /// The HTTP status that answers a refused request, 200 for one let through.
    pub fn status(&self) -> (r: u16)
        ensures
            r == match self {
                AuthDecision::MissingCookie | AuthDecision::InvalidSession => 401u16,
                AuthDecision::AdminRequired | AuthDecision::SetScoreRequired => 403u16,
                AuthDecision::Allowed => 200u16,
            },
    {
        match self {
            AuthDecision::MissingCookie | AuthDecision::InvalidSession => 401,
            AuthDecision::AdminRequired | AuthDecision::SetScoreRequired => 403,
            AuthDecision::Allowed => 200,
        }
    }
}

impl AuthConfig {
    /// The guard's decision. `session` is the verdict on the request's
    /// session cookie, `None` when it has none. An unverified session is
    /// refused before permissions are looked at, and the admin permission is
    /// checked before the set-score one.
    pub fn decide(&self, session: Option<&VerifiedSession>) -> (r: AuthDecision)
        ensures
            r == match session {
                None => AuthDecision::MissingCookie,
                Some(s) => if !s.verified {
                    AuthDecision::InvalidSession
                } else if self.require_admin && !s.has_admin {
                    AuthDecision::AdminRequired
                } else if self.require_set_score && !s.has_set_score {
                    AuthDecision::SetScoreRequired
                } else {
                    AuthDecision::Allowed
                },
            },
    {
        match session {
            None => AuthDecision::MissingCookie,
            Some(s) => {
                if !s.verified {
                    AuthDecision::InvalidSession
                } else if self.require_admin && !s.has_admin {
                    AuthDecision::AdminRequired
                } else if self.require_set_score && !s.has_set_score {
                    AuthDecision::SetScoreRequired
                } else {
                    AuthDecision::Allowed
                }
            },
        }
    }
}

} // verus!
