//! Microsoft sign-in rules: configuration checks, the addresses and forms of
//! the authorization-code flow, the state check, the signing-key choice and
//! the user and role a validated identity token gives.
use vstd::prelude::*;
use crate::ldap::{matched_role, role_from_groups as directory_role, RoleGroups};
use crate::permissions::{pairs_view, strings_view};
use crate::text::{concat2, str_eq};

verus! {

/// Why a Microsoft sign-in failed.
pub enum AzureAuthError {
    Config(String),
    Http(String),
    InvalidState,
    InvalidToken(String),
    NoRoleAssigned,
}

/// The message shown for a Microsoft sign-in failure.
pub open spec fn azure_error_text(e: AzureAuthError) -> Seq<char> {
    match e {
        AzureAuthError::Config(m) => "Azure AD misconfigured: "@ + m@,
        AzureAuthError::Http(m) => "Azure AD request failed: "@ + m@,
        AzureAuthError::InvalidState => "Invalid or expired sign-in attempt"@,
        AzureAuthError::InvalidToken(m) => "Invalid identity token: "@ + m@,
        AzureAuthError::NoRoleAssigned => "User is not a member of any authorized group"@,
    }
}

impl AzureAuthError {
    /// The message shown for this failure.
    pub fn message(&self) -> (r: String)
        ensures
            r@ == azure_error_text(*self),
    {
        match self {
            AzureAuthError::Config(m) => concat2("Azure AD misconfigured: ", m.as_str()),
            AzureAuthError::Http(m) => concat2("Azure AD request failed: ", m.as_str()),
            AzureAuthError::InvalidState => "Invalid or expired sign-in attempt".to_string(),
            AzureAuthError::InvalidToken(m) => concat2("Invalid identity token: ", m.as_str()),
            AzureAuthError::NoRoleAssigned => "User is not a member of any authorized group".to_string(),
        }
    }
}

/// A user signed in through Microsoft, with its role.
pub struct AzureUser {
    pub username: String,
    pub role: String,
}

/// The role a Microsoft sign-in gives: that of the first configured group,
/// in privilege order, the user belongs to, and otherwise (for now) admin.
pub open spec fn azure_role_spec(groups: Seq<Seq<char>>, configured: RoleGroups) -> Seq<char> {
    match matched_role(groups, configured) {
        Some(r) => r,
        None => "admin"@,
    }
}

/// The role given by the user's group object ids. Until the directory groups
/// exist, a user in none of them is given the admin role, so this never
/// returns `None`.
pub fn role_from_groups(groups: &Vec<String>, configured: &RoleGroups) -> (r: Option<String>)
    ensures
        r matches Some(s) && s@ == azure_role_spec(strings_view(groups@), *configured),
{
    match directory_role(groups, configured) {
        Some(role) => Some(role),
        None => Some("admin".to_string()),
    }
}

/// The settings of the registered application.
pub struct AzureApp {
    pub tenant: String,
    pub client: String,
    pub redirect: String,
}

/// Config error carrying message `m`.
pub open spec fn is_config(e: AzureAuthError, m: Seq<char>) -> bool {
    e matches AzureAuthError::Config(x) && x@ == m
}

/// Gathers the application settings, reporting the first one missing in the
/// order tenant, client, redirect address.
pub fn azure_app(tenant: Option<String>, client: Option<String>, redirect: Option<String>) -> (r: Result<AzureApp, AzureAuthError>)
    ensures
        tenant is None ==> (r matches Err(e) && is_config(e, "AZURE_TENANT_ID not set"@)),
        tenant is Some && client is None ==> (r matches Err(e) && is_config(
            e,
            "AZURE_CLIENT_ID not set"@,
        )),
        tenant is Some && client is Some && redirect is None ==> (r matches Err(e) && is_config(
            e,
            "AZURE_REDIRECT_URI not set"@,
        )),
        tenant is Some && client is Some && redirect is Some ==> (r matches Ok(a) && a.tenant@
            == tenant.unwrap()@ && a.client@ == client.unwrap()@ && a.redirect@ == redirect.unwrap()@),
{
    let tenant = match tenant {
        Some(t) => t,
        None => return Err(AzureAuthError::Config("AZURE_TENANT_ID not set".to_string())),
    };
    let client = match client {
        Some(c) => c,
        None => return Err(AzureAuthError::Config("AZURE_CLIENT_ID not set".to_string())),
    };
    let redirect = match redirect {
        Some(r) => r,
        None => return Err(AzureAuthError::Config("AZURE_REDIRECT_URI not set".to_string())),
    };
    Ok(AzureApp { tenant, client, redirect })
}

/// The client secret the code exchange needs.
pub fn client_secret(secret: Option<String>) -> (r: Result<String, AzureAuthError>)
    ensures
        match secret {
            Some(s) => r matches Ok(x) && x@ == s@,
            None => r matches Err(e) && is_config(e, "AZURE_CLIENT_SECRET not set"@),
        },
{
    match secret {
        Some(s) => Ok(s),
        None => Err(AzureAuthError::Config("AZURE_CLIENT_SECRET not set".to_string())),
    }
}

/// The sign-in host.
pub open spec fn login_host() -> Seq<char> {
    "https://login.microsoftonline.com/"@
}

/// Address of the tenant's authorization page.
pub fn authorize_endpoint(tenant: &str) -> (r: String)
    ensures
        r@ == login_host() + tenant@ + "/oauth2/v2.0/authorize"@,
{
    concat2(concat2("https://login.microsoftonline.com/", tenant).as_str(), "/oauth2/v2.0/authorize")
}

/// Address of the tenant's token endpoint.
pub fn token_endpoint(tenant: &str) -> (r: String)
    ensures
        r@ == login_host() + tenant@ + "/oauth2/v2.0/token"@,
{
    concat2(concat2("https://login.microsoftonline.com/", tenant).as_str(), "/oauth2/v2.0/token")
}

/// Address of the tenant's published signing keys.
pub fn keys_endpoint(tenant: &str) -> (r: String)
    ensures
        r@ == login_host() + tenant@ + "/discovery/v2.0/keys"@,
{
    concat2(concat2("https://login.microsoftonline.com/", tenant).as_str(), "/discovery/v2.0/keys")
}

/// The issuer an identity token of the tenant must carry.
pub fn token_issuer(tenant: &str) -> (r: String)
    ensures
        r@ == login_host() + tenant@ + "/v2.0"@,
{
    concat2(concat2("https://login.microsoftonline.com/", tenant).as_str(), "/v2.0")
}

fn pair(k: &str, v: &str) -> (r: (String, String))
    ensures
        r.0@ == k@,
        r.1@ == v@,
{
    (k.to_string(), v.to_string())
}

/// The query of the authorization page, in order.
pub open spec fn authorize_query_spec(client: Seq<char>, redirect: Seq<char>, state: Seq<char>) -> Seq<(Seq<char>, Seq<char>)> {
    seq![
        ("client_id"@, client),
        ("response_type"@, "code"@),
        ("redirect_uri"@, redirect),
        ("response_mode"@, "query"@),
        ("scope"@, "openid profile email"@),
        ("state"@, state),
    ]
}

/// The query of the authorization page.
pub fn authorize_query(client: &str, redirect: &str, state: &str) -> (r: Vec<(String, String)>)
    ensures
        pairs_view(r@) == authorize_query_spec(client@, redirect@, state@),
{
    let r = vec![
        pair("client_id", client),
        pair("response_type", "code"),
        pair("redirect_uri", redirect),
        pair("response_mode", "query"),
        pair("scope", "openid profile email"),
        pair("state", state),
    ];
    assert(pairs_view(r@) =~= authorize_query_spec(client@, redirect@, state@));
    r
}

/// The form posted to the token endpoint, in order.
pub open spec fn token_form_spec(client: Seq<char>, secret: Seq<char>, code: Seq<char>, redirect: Seq<char>) -> Seq<(Seq<char>, Seq<char>)> {
    seq![
        ("client_id"@, client),
        ("client_secret"@, secret),
        ("grant_type"@, "authorization_code"@),
        ("code"@, code),
        ("redirect_uri"@, redirect),
        ("scope"@, "openid profile email"@),
    ]
}

/// The form that trades a one-time code for an identity token.
pub fn token_form(client: &str, secret: &str, code: &str, redirect: &str) -> (r: Vec<(String, String)>)
    ensures
        pairs_view(r@) == token_form_spec(client@, secret@, code@, redirect@),
{
    let r = vec![
        pair("client_id", client),
        pair("client_secret", secret),
        pair("grant_type", "authorization_code"),
        pair("code", code),
        pair("redirect_uri", redirect),
        pair("scope", "openid profile email"),
    ];
    assert(pairs_view(r@) =~= token_form_spec(client@, secret@, code@, redirect@));
    r
}

/// What url gives for `base` with `pairs` appended to its query
/// (`Url::parse`, `query_pairs_mut().append_pair` for each pair in order,
/// then the serialization), or the text of the parse error.
pub uninterp spec fn url_with_query(base: Seq<char>, pairs: Seq<(Seq<char>, Seq<char>)>) -> Result<
    Seq<char>,
    Seq<char>,
>;

/// url: parses `base` (`Url::parse`), appends each pair to its query with
/// `query_pairs_mut().append_pair`, and returns the serialized address; on a
/// parse failure it returns the error's text. The text is a function of the
/// arguments alone; how it is encoded is not stated here.
#[verifier::external_body]
fn url_with_pairs(base: &str, pairs: &Vec<(String, String)>) -> (r: Result<String, String>)
    ensures
        match r {
            Ok(u) => url_with_query(base@, pairs_view(pairs@)) == Ok::<Seq<char>, Seq<char>>(u@),
            Err(e) => url_with_query(base@, pairs_view(pairs@)) == Err::<Seq<char>, Seq<char>>(e@),
        },
{
    match url::Url::parse(base) {
        Ok(mut u) => {
            {
                let mut q = u.query_pairs_mut();
                for (k, v) in pairs.iter() {
                    q.append_pair(k, v);
                }
            }
            Ok(u.into())
        },
        Err(e) => Err(e.to_string()),
    }
}

/// The outcome of building the authorization address from url's result: the
/// address, or a configuration error with url's message.
pub fn authorize_outcome(built: Result<String, String>) -> (r: Result<String, AzureAuthError>)
    ensures
        match built {
            Ok(u) => r matches Ok(x) && x@ == u@,
            Err(e) => r matches Err(x) && is_config(x, e@),
        },
{
    match built {
        Ok(u) => Ok(u),
        Err(e) => Err(AzureAuthError::Config(e)),
    }
}

/// Where to send the browser to sign in: the tenant's authorization page
/// with the application's client id, redirect address and the caller's
/// `state`, which must come back unchanged. The settings are checked in the
/// order tenant, client, redirect address.
pub fn authorize_url(
    state: &str,
    tenant: Option<String>,
    client: Option<String>,
    redirect: Option<String>,
) -> (r: Result<String, AzureAuthError>)
    ensures
        tenant is None ==> (r matches Err(e) && is_config(e, "AZURE_TENANT_ID not set"@)),
        tenant is Some && client is None ==> (r matches Err(e) && is_config(
            e,
            "AZURE_CLIENT_ID not set"@,
        )),
        tenant is Some && client is Some && redirect is None ==> (r matches Err(e) && is_config(
            e,
            "AZURE_REDIRECT_URI not set"@,
        )),
        tenant is Some && client is Some && redirect is Some ==> ({
            let built = url_with_query(
                login_host() + tenant.unwrap()@ + "/oauth2/v2.0/authorize"@,
                authorize_query_spec(client.unwrap()@, redirect.unwrap()@, state@),
            );
            match built {
                Ok(u) => r matches Ok(x) && x@ == u,
                Err(m) => r matches Err(e) && is_config(e, m),
            }
        }),
{
    let app = azure_app(tenant, client, redirect)?;
    let base = authorize_endpoint(app.tenant.as_str());
    let query = authorize_query(app.client.as_str(), app.redirect.as_str(), state);
    authorize_outcome(url_with_pairs(base.as_str(), &query))
}

/// The anti-forgery check of the sign-in callback: the `state` that came
/// back must equal the one stored when the sign-in began.
pub fn check_state(state: &str, expected: Option<&str>) -> (r: Result<(), AzureAuthError>)
    ensures
        match expected {
            Some(x) => if x@ == state@ {
                r is Ok
            } else {
                r matches Err(AzureAuthError::InvalidState)
            },
            None => r matches Err(AzureAuthError::InvalidState),
        },
{
    match expected {
        Some(x) => if str_eq(x, state) {
            Ok(())
        } else {
            Err(AzureAuthError::InvalidState)
        },
        None => Err(AzureAuthError::InvalidState),
    }
}

/// One published signing key.
pub struct Jwk {
    pub kid: String,
    pub n: String,
    pub e: String,
}

/// Invalid-token error carrying message `m`.
pub open spec fn is_invalid_token(e: AzureAuthError, m: Seq<char>) -> bool {
    e matches AzureAuthError::InvalidToken(x) && x@ == m
}

/// Picks the key that signed a token: the first published key whose id is
/// the token header's key id. Its position is returned.
pub fn select_signing_key(kid: Option<String>, keys: &Vec<Jwk>) -> (r: Result<usize, AzureAuthError>)
    ensures
        match kid {
            None => r matches Err(e) && is_invalid_token(e, "token header has no kid"@),
            Some(k) => match r {
                Ok(i) => i < keys@.len() && keys@[i as int].kid@ == k@ && forall|j: int|
                    0 <= j < i ==> (#[trigger] keys@[j]).kid@ != k@,
                Err(e) => is_invalid_token(e, "signing key not in Azure AD's key set"@)
                    && forall|j: int| 0 <= j < keys@.len() ==> (#[trigger] keys@[j]).kid@ != k@,
            },
        },
{
    let k = match kid {
        Some(k) => k,
        None => return Err(AzureAuthError::InvalidToken("token header has no kid".to_string())),
    };
    let mut i: usize = 0;
    while i < keys.len()
        invariant
            i <= keys.len(),
            kid == Some(k),
            forall|j: int| 0 <= j < i ==> (#[trigger] keys@[j]).kid@ != k@,
        decreases keys.len() - i,
    {
        if str_eq(keys[i].kid.as_str(), k.as_str()) {
            return Ok(i);
        }
        i += 1;
    }
    Err(AzureAuthError::InvalidToken("signing key not in Azure AD's key set".to_string()))
}

/// The claims of a validated identity token that sign-in uses.
pub struct AzureIdClaims {
    pub oid: String,
    pub preferred_username: Option<String>,
    pub email: Option<String>,
    pub groups: Vec<String>,
}

/// The user name of a signed-in identity: its preferred user name, else its
/// e-mail address, else its object id.
pub open spec fn azure_username_spec(c: AzureIdClaims) -> Seq<char> {
    match c.preferred_username {
        Some(p) => p@,
        None => match c.email {
            Some(e) => e@,
            None => c.oid@,
        },
    }
}

/// The user a validated identity token signs in, with the role of its
/// groups.
pub fn azure_user(claims: AzureIdClaims, configured: &RoleGroups) -> (r: Result<AzureUser, AzureAuthError>)
    ensures
        r matches Ok(u) && u.username@ == azure_username_spec(claims) && u.role@ == azure_role_spec(
            strings_view(claims.groups@),
            *configured,
        ),
{
    let role = match role_from_groups(&claims.groups, configured) {
        Some(r) => r,
        None => return Err(AzureAuthError::NoRoleAssigned),
    };
    let username = match claims.preferred_username {
        Some(p) => p,
        None => match claims.email {
            Some(e) => e,
            None => claims.oid,
        },
    };
    Ok(AzureUser { username, role })
}

} // verus!
