use dockboard::auth::{
    AdminOnly, AdminOrManager, AdminOrSupervisor, AuthFailure, AuthenticatedUser, Claims, LDAPUser,
};
use dockboard::azure::{
    authorize_endpoint, authorize_outcome, authorize_query, authorize_url, azure_app, azure_user,
    check_state, client_secret, keys_endpoint, role_from_groups as azure_role, select_signing_key,
    token_endpoint, token_form, token_issuer, AzureAuthError, AzureIdClaims, Jwk,
};
use dockboard::ldap::{
    escape_filter_value, ldap_user_for, login_upn, prepare_ldap_login, role_from_groups,
    role_from_member_of, upn_filter, user_search_filter, LdapAuthError, RoleGroups,
};

fn claims(role: &str) -> Claims {
    Claims { username: "ann".to_string(), role: role.to_string(), exp: 10 }
}

fn groups() -> RoleGroups {
    RoleGroups {
        admin: Some("CN=Admins,DC=corp".to_string()),
        manager: Some("CN=Managers,DC=corp".to_string()),
        floater: Some(String::new()),
        mfu: None,
    }
}

fn s(v: &[&str]) -> Vec<String> {
    v.iter().map(|x| x.to_string()).collect()
}

#[test]
fn remote_user_names() {
    assert_eq!(LDAPUser::from_header(Some("CORP\\JSmith")).unwrap().0, "jsmith");
    assert_eq!(LDAPUser::from_header(Some("JSmith@CORP.COM")).unwrap().0, "jsmith");
    assert_eq!(LDAPUser::from_header(Some("  Bob ")).unwrap().0, "bob");
    assert_eq!(LDAPUser::from_header(Some("A\\B\\Carl@X")).unwrap().0, "carl");
    assert!(LDAPUser::from_header(Some("CORP\\")).is_none());
    assert!(LDAPUser::from_header(Some("   ")).is_none());
    assert!(LDAPUser::from_header(None).is_none());
}

#[test]
fn session_guards() {
    assert!(AuthenticatedUser::check(Some(claims("read"))).is_ok());
    assert!(matches!(AuthenticatedUser::check(None), Err(AuthFailure::Unauthorized)));
    assert!(AdminOrManager::check(Some(claims("manager"))).is_ok());
    assert!(matches!(AdminOrManager::check(Some(claims("supervisor"))), Err(AuthFailure::Forbidden)));
    assert!(matches!(AdminOrManager::check(None), Err(AuthFailure::Unauthorized)));
    assert!(AdminOnly::check(Some(claims("admin"))).is_ok());
    assert!(matches!(AdminOnly::check(Some(claims("manager"))), Err(AuthFailure::Forbidden)));
    assert!(AdminOrSupervisor::check(Some(claims("supervisor"))).is_ok());
    assert!(matches!(AdminOrSupervisor::check(Some(claims("Admin"))), Err(AuthFailure::Forbidden)));
    let u = AdminOnly::check(Some(claims("admin"))).ok().unwrap();
    assert_eq!(u.0.username, "ann");
    assert_eq!(u.0.exp, 10);
}

#[test]
fn filter_escaping() {
    assert_eq!(escape_filter_value("a*b(c)d\\e\0"), "a\\2ab\\28c\\29d\\5ce\\00");
    assert_eq!(escape_filter_value("plain.user"), "plain.user");
    let e = escape_filter_value("*)(uid=*))(|(uid=*");
    assert!(!e.contains('*') && !e.contains('(') && !e.contains(')'));
}

#[test]
fn search_filters() {
    assert_eq!(user_search_filter("bob", ""), "(sAMAccountName=bob)");
    assert_eq!(
        user_search_filter("b*", "corp.com"),
        "(|(sAMAccountName=b\\2a)(userPrincipalName=b\\2a@corp.com))"
    );
    assert_eq!(upn_filter("bob@corp.com"), "(userPrincipalName=bob@corp.com)");
}

#[test]
fn ldap_preconditions_in_order() {
    let some = |x: &str| Some(x.to_string());
    assert!(matches!(
        prepare_ldap_login("", None, None, None, None, None),
        Err(LdapAuthError::InvalidCredentials)
    ));
    match prepare_ldap_login("pw", None, None, None, None, None) {
        Err(LdapAuthError::Config(m)) => assert_eq!(m, "LDAP_URL not set"),
        _ => panic!("expected a config error"),
    }
    match prepare_ldap_login("pw", some("ldap://dc:389"), some("dn"), some("p"), some("b"), None) {
        Err(LdapAuthError::Config(m)) => assert!(m.starts_with("LDAP_URL must use ldaps://")),
        _ => panic!("expected a config error"),
    }
    match prepare_ldap_login("pw", some("LDAPS://dc"), None, some("p"), some("b"), None) {
        Err(LdapAuthError::Config(m)) => assert_eq!(m, "LDAP_BIND_DN not set"),
        _ => panic!("expected a config error"),
    }
    match prepare_ldap_login("pw", some("ldaps://dc"), some("dn"), None, some("b"), None) {
        Err(LdapAuthError::Config(m)) => assert_eq!(m, "LDAP_BIND_PASSWORD not set"),
        _ => panic!("expected a config error"),
    }
    match prepare_ldap_login("pw", some("ldaps://dc"), some("dn"), some("p"), None, None) {
        Err(LdapAuthError::Config(m)) => assert_eq!(m, "LDAP_USER_SEARCH_BASE not set"),
        _ => panic!("expected a config error"),
    }
    let ok = prepare_ldap_login("pw", some("ldaps://dc"), some("dn"), some("p"), some("b"), None)
        .ok()
        .unwrap();
    assert_eq!(ok.url, "ldaps://dc");
    assert_eq!(ok.domain, "");
}

#[test]
fn ldap_messages() {
    assert_eq!(LdapAuthError::Config("x".to_string()).message(), "LDAP misconfigured: x");
    assert_eq!(LdapAuthError::Connection("y".to_string()).message(), "LDAP connection error: y");
    assert_eq!(LdapAuthError::Bind("z".to_string()).message(), "LDAP error: z");
    assert_eq!(LdapAuthError::UserNotFound.message(), "User not found");
    assert_eq!(LdapAuthError::InvalidCredentials.message(), "Invalid credentials");
    assert_eq!(
        LdapAuthError::NoRoleAssigned.message(),
        "User is not a member of any authorized group"
    );
}

#[test]
fn directory_roles_by_privilege() {
    let g = groups();
    assert_eq!(role_from_groups(&s(&["cn=managers,dc=corp", "CN=ADMINS,DC=CORP"]), &g), Some("admin".to_string()));
    assert_eq!(role_from_groups(&s(&["CN=Managers,DC=corp"]), &g), Some("manager".to_string()));
    assert_eq!(role_from_groups(&s(&[""]), &g), None);
    assert_eq!(role_from_groups(&s(&[]), &g), None);
    assert!(matches!(ldap_user_for(&s(&["x"]), &g), Err(LdapAuthError::NoRoleAssigned)));
    assert_eq!(ldap_user_for(&s(&["CN=Managers,DC=corp"]), &g).ok().unwrap().role, "manager");
}

#[test]
fn login_roles_from_member_of() {
    assert_eq!(role_from_member_of(&s(&["CN=Read,OU=x", "CN=Supervisor,OU=y"])), "supervisor");
    assert_eq!(role_from_member_of(&s(&["CN=VAA,OU=x", "CN=Univ,OU=y"])), "vaa");
    assert_eq!(role_from_member_of(&s(&["OU=admin", "cn=admin"])), "read");
    assert_eq!(role_from_member_of(&s(&[])), "read");
    assert_eq!(role_from_member_of(&s(&["CN=Manager", "CN=ADMIN,DC=c"])), "admin");
}

#[test]
fn principal_names() {
    assert_eq!(login_upn("bob", "corp.com"), "bob@corp.com");
    assert_eq!(login_upn("bob@other.org", "corp.com"), "bob@other.org");
}

#[test]
fn azure_settings_in_order() {
    let some = |x: &str| Some(x.to_string());
    match azure_app(None, None, None) {
        Err(AzureAuthError::Config(m)) => assert_eq!(m, "AZURE_TENANT_ID not set"),
        _ => panic!(),
    }
    match azure_app(some("t"), None, some("r")) {
        Err(AzureAuthError::Config(m)) => assert_eq!(m, "AZURE_CLIENT_ID not set"),
        _ => panic!(),
    }
    match azure_app(some("t"), some("c"), None) {
        Err(AzureAuthError::Config(m)) => assert_eq!(m, "AZURE_REDIRECT_URI not set"),
        _ => panic!(),
    }
    match client_secret(None) {
        Err(AzureAuthError::Config(m)) => assert_eq!(m, "AZURE_CLIENT_SECRET not set"),
        _ => panic!(),
    }
    assert_eq!(client_secret(some("s")).ok().unwrap(), "s");
}

#[test]
fn azure_addresses() {
    assert_eq!(authorize_endpoint("T1"), "https://login.microsoftonline.com/T1/oauth2/v2.0/authorize");
    assert_eq!(token_endpoint("T1"), "https://login.microsoftonline.com/T1/oauth2/v2.0/token");
    assert_eq!(keys_endpoint("T1"), "https://login.microsoftonline.com/T1/discovery/v2.0/keys");
    assert_eq!(token_issuer("T1"), "https://login.microsoftonline.com/T1/v2.0");
    let q = authorize_query("c", "https://app/cb", "st");
    assert_eq!(q[0], ("client_id".to_string(), "c".to_string()));
    assert_eq!(q[4], ("scope".to_string(), "openid profile email".to_string()));
    assert_eq!(q[5], ("state".to_string(), "st".to_string()));
    let f = token_form("c", "sec", "code1", "r");
    assert_eq!(f[1], ("client_secret".to_string(), "sec".to_string()));
    assert_eq!(f[2], ("grant_type".to_string(), "authorization_code".to_string()));
    assert_eq!(f[3], ("code".to_string(), "code1".to_string()));
}

#[test]
fn authorize_url_is_built_by_url() {
    let u = authorize_url(
        "abc 123",
        Some("tenant".to_string()),
        Some("client".to_string()),
        Some("https://app.example/cb".to_string()),
    )
    .ok()
    .unwrap();
    assert_eq!(
        u,
        "https://login.microsoftonline.com/tenant/oauth2/v2.0/authorize?client_id=client&response_type=code&redirect_uri=https%3A%2F%2Fapp.example%2Fcb&response_mode=query&scope=openid+profile+email&state=abc+123"
    );
    match authorize_url("s", Some("ten ant/../x y".to_string()), Some("c".to_string()), Some("r".to_string())) {
        Ok(u) => assert!(u.starts_with("https://login.microsoftonline.com/")),
        Err(_) => {}
    }
    match authorize_url("s", None, Some("c".to_string()), Some("r".to_string())) {
        Err(AzureAuthError::Config(m)) => assert_eq!(m, "AZURE_TENANT_ID not set"),
        _ => panic!(),
    }
    match authorize_outcome(Err("bad".to_string())) {
        Err(AzureAuthError::Config(m)) => assert_eq!(m, "bad"),
        _ => panic!(),
    }
}

#[test]
fn state_check() {
    assert!(check_state("s1", Some("s1")).is_ok());
    assert!(matches!(check_state("s1", Some("s2")), Err(AzureAuthError::InvalidState)));
    assert!(matches!(check_state("s1", None), Err(AzureAuthError::InvalidState)));
}

#[test]
fn signing_key_choice() {
    let keys = vec![
        Jwk { kid: "k1".to_string(), n: "n1".to_string(), e: "e".to_string() },
        Jwk { kid: "k2".to_string(), n: "n2".to_string(), e: "e".to_string() },
        Jwk { kid: "k2".to_string(), n: "n3".to_string(), e: "e".to_string() },
    ];
    assert_eq!(select_signing_key(Some("k2".to_string()), &keys).ok(), Some(1));
    match select_signing_key(Some("k9".to_string()), &keys) {
        Err(AzureAuthError::InvalidToken(m)) => assert_eq!(m, "signing key not in Azure AD's key set"),
        _ => panic!(),
    }
    match select_signing_key(None, &keys) {
        Err(AzureAuthError::InvalidToken(m)) => assert_eq!(m, "token header has no kid"),
        _ => panic!(),
    }
}

#[test]
fn azure_sign_in_always_has_a_role() {
    let g = groups();
    assert_eq!(azure_role(&s(&["nothing"]), &g), Some("admin".to_string()));
    assert_eq!(azure_role(&s(&["cn=managers,dc=corp"]), &g), Some("manager".to_string()));
    let c = AzureIdClaims {
        oid: "oid-1".to_string(),
        preferred_username: None,
        email: Some("a@b.c".to_string()),
        groups: s(&["CN=Managers,DC=corp"]),
    };
    let u = azure_user(c, &g).ok().unwrap();
    assert_eq!(u.username, "a@b.c");
    assert_eq!(u.role, "manager");
    let c = AzureIdClaims { oid: "oid-2".to_string(), preferred_username: None, email: None, groups: vec![] };
    let u = azure_user(c, &g).ok().unwrap();
    assert_eq!(u.username, "oid-2");
    assert_eq!(u.role, "admin");
    let c = AzureIdClaims {
        oid: "o".to_string(),
        preferred_username: Some("pref".to_string()),
        email: Some("e".to_string()),
        groups: vec![],
    };
    assert_eq!(azure_user(c, &g).ok().unwrap().username, "pref");
}

#[test]
fn azure_messages() {
    assert_eq!(AzureAuthError::Config("x".to_string()).message(), "Azure AD misconfigured: x");
    assert_eq!(AzureAuthError::Http("y".to_string()).message(), "Azure AD request failed: y");
    assert_eq!(AzureAuthError::InvalidState.message(), "Invalid or expired sign-in attempt");
    assert_eq!(AzureAuthError::InvalidToken("z".to_string()).message(), "Invalid identity token: z");
    assert_eq!(
        AzureAuthError::NoRoleAssigned.message(),
        "User is not a member of any authorized group"
    );
}

fn rfc4515_unescape(t: &str) -> String {
    let cs: Vec<char> = t.chars().collect();
    let mut out = String::new();
    let mut i = 0;
    while i < cs.len() {
        if cs[i] == '\\' && i + 2 < cs.len() && cs[i + 1].is_ascii_hexdigit() && cs[i + 2].is_ascii_hexdigit() {
            let v = cs[i + 1].to_digit(16).unwrap() * 16 + cs[i + 2].to_digit(16).unwrap();
            out.push(char::from_u32(v).unwrap());
            i += 3;
        } else {
            out.push(cs[i]);
            i += 1;
        }
    }
    out
}

#[test]
fn filter_escaping_joins_and_reads_back() {
    let a = "ad*min(";
    let b = ")\\x\0y";
    let joined = format!("{a}{b}");
    assert_eq!(
        escape_filter_value(&joined),
        format!("{}{}", escape_filter_value(a), escape_filter_value(b))
    );
    assert_eq!(escape_filter_value("j.doe-01@corp"), "j.doe-01@corp");
    for v in ["", "*)(uid=*))(|(uid=*", "a\\5cb", "\0\0", joined.as_str()] {
        assert_eq!(rfc4515_unescape(&escape_filter_value(v)), v);
    }
}
