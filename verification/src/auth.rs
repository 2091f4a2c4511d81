//! Who may use the board: the user name handed over by the sign-on proxy,
//! the claims of a session, and the role gates of the routes.
use vstd::prelude::*;
use crate::text::{split_char, split_chars, str_eq, to_lowercase, trim, trim_spec, unicode_lowercase, lemma_split_nonempty};

verus! {

/// The user name the sign-on proxy authenticated, without its domain.
pub struct LDAPUser(pub String);

/// The user name carried in a proxy header: the part after the last `\`,
/// cut at the first `@`, trimmed and lowercased; `None` when that is empty.
pub open spec fn remote_user_spec(raw: Seq<char>) -> Option<Seq<char>> {
    let after_domain = split_char(raw, '\\').last();
    let before_realm = split_char(after_domain, '@')[0];
    let name = unicode_lowercase(trim_spec(before_realm));
    if name.len() == 0 {
        None
    } else {
        Some(name)
    }
}

impl LDAPUser {
    /// The user named by the proxy's `X-Remote-User` header (`DOMAIN\user` or
    /// `user@REALM`), or `None` when there is no header or no name in it.
    pub fn from_header(raw: Option<&str>) -> (r: Option<LDAPUser>)
        ensures
            match raw {
                None => r is None,
                Some(h) => match remote_user_spec(h@) {
                    None => r is None,
                    Some(u) => r matches Some(x) && x.0@ == u,
                },
            },
    {
        let h = match raw {
            Some(h) => h,
            None => return None,
        };
        let pieces = split_chars(h, '\\');
        proof {
            lemma_split_nonempty(h@, '\\');
        }
        let last = &pieces[pieces.len() - 1];
        assert(last@ == split_char(h@, '\\').last());
        let parts = split_chars(last.as_str(), '@');
        proof {
            lemma_split_nonempty(last@, '@');
        }
        assert(parts@[0]@ == split_char(last@, '@')[0]);
        let name = to_lowercase(trim(parts[0].as_str()).as_str());
        if name.as_str().is_empty() {
            None
        } else {
            Some(LDAPUser(name))
        }
    }
}

/// The claims of a signed session token.
pub struct Claims {
    pub username: String,
    pub role: String,
    pub exp: usize,
}

/// Why a request was turned away.
#[derive(PartialEq, Eq, Structural, Debug, Clone, Copy)]
pub enum AuthFailure {
    /// No valid session.
    Unauthorized,
    /// A valid session whose role may not use the route.
    Forbidden,
}

/// A request with a valid session.
pub struct AuthenticatedUser(pub Claims);

/// A request from an administrator or a manager.
pub struct AdminOrManager(pub Claims);

/// A request from an administrator.
pub struct AdminOnly(pub Claims);

/// A request from an administrator or a supervisor.
pub struct AdminOrSupervisor(pub Claims);

impl AuthenticatedUser {
    /// Admits any request whose session token decoded to `claims`.
    pub fn check(claims: Option<Claims>) -> (r: Result<AuthenticatedUser, AuthFailure>)
        ensures
            match claims {
                None => r == Err::<AuthenticatedUser, AuthFailure>(AuthFailure::Unauthorized),
                Some(c) => r matches Ok(u) && u.0 == c,
            },
    {
        match claims {
            Some(c) => Ok(AuthenticatedUser(c)),
            None => Err(AuthFailure::Unauthorized),
        }
    }
}

impl AdminOrManager {
    /// Admits a session of role `admin` or `manager`; any other session is
    /// forbidden, no session is unauthorized.
    pub fn check(claims: Option<Claims>) -> (r: Result<AdminOrManager, AuthFailure>)
        ensures
            match claims {
                None => r == Err::<AdminOrManager, AuthFailure>(AuthFailure::Unauthorized),
                Some(c) => if c.role@ == "admin"@ || c.role@ == "manager"@ {
                    r matches Ok(u) && u.0 == c
                } else {
                    r == Err::<AdminOrManager, AuthFailure>(AuthFailure::Forbidden)
                },
            },
    {
        match claims {
            Some(c) => if str_eq(c.role.as_str(), "admin") || str_eq(c.role.as_str(), "manager") {
                Ok(AdminOrManager(c))
            } else {
                Err(AuthFailure::Forbidden)
            },
            None => Err(AuthFailure::Unauthorized),
        }
    }
}

impl AdminOnly {
    /// Admits a session of role `admin`; any other session is forbidden, no
    /// session is unauthorized.
    pub fn check(claims: Option<Claims>) -> (r: Result<AdminOnly, AuthFailure>)
        ensures
            match claims {
                None => r == Err::<AdminOnly, AuthFailure>(AuthFailure::Unauthorized),
                Some(c) => if c.role@ == "admin"@ {
                    r matches Ok(u) && u.0 == c
                } else {
                    r == Err::<AdminOnly, AuthFailure>(AuthFailure::Forbidden)
                },
            },
    {
        match claims {
            Some(c) => if str_eq(c.role.as_str(), "admin") {
                Ok(AdminOnly(c))
            } else {
                Err(AuthFailure::Forbidden)
            },
            None => Err(AuthFailure::Unauthorized),
        }
    }
}

impl AdminOrSupervisor {
    /// Admits a session of role `admin` or `supervisor`; any other session is
    /// forbidden, no session is unauthorized.
    pub fn check(claims: Option<Claims>) -> (r: Result<AdminOrSupervisor, AuthFailure>)
        ensures
            match claims {
                None => r == Err::<AdminOrSupervisor, AuthFailure>(AuthFailure::Unauthorized),
                Some(c) => if c.role@ == "admin"@ || c.role@ == "supervisor"@ {
                    r matches Ok(u) && u.0 == c
                } else {
                    r == Err::<AdminOrSupervisor, AuthFailure>(AuthFailure::Forbidden)
                },
            },
    {
        match claims {
            Some(c) => if str_eq(c.role.as_str(), "admin") || str_eq(c.role.as_str(), "supervisor") {
                Ok(AdminOrSupervisor(c))
            } else {
                Err(AuthFailure::Forbidden)
            },
            None => Err(AuthFailure::Unauthorized),
        }
    }
}

} // verus!
