//! Directory sign-in rules: configuration checks, the search filter with
//! its escaping, and the roles given by group membership.
use vstd::prelude::*;
use crate::permissions::strings_view;
use crate::text::{
    concat2, eq_ignore_ascii_case, lemma_split_nonempty, lower_starts_with, push_char, split_char,
    split_chars, starts_with, starts_with_ascii_lower, str_eq_ignore_ascii_case, str_starts_with,
    to_lowercase, unicode_lowercase,
};

verus! {

/// Why a directory sign-in failed.
pub enum LdapAuthError {
    Config(String),
    Connection(String),
    Bind(String),
    UserNotFound,
    InvalidCredentials,
    NoRoleAssigned,
}

/// The message shown for a directory sign-in failure.
pub open spec fn ldap_error_text(e: LdapAuthError) -> Seq<char> {
    match e {
        LdapAuthError::Config(m) => "LDAP misconfigured: "@ + m@,
        LdapAuthError::Connection(m) => "LDAP connection error: "@ + m@,
        LdapAuthError::Bind(m) => "LDAP error: "@ + m@,
        LdapAuthError::UserNotFound => "User not found"@,
        LdapAuthError::InvalidCredentials => "Invalid credentials"@,
        LdapAuthError::NoRoleAssigned => "User is not a member of any authorized group"@,
    }
}

impl LdapAuthError {
    /// The message shown for this failure.
    pub fn message(&self) -> (r: String)
        ensures
            r@ == ldap_error_text(*self),
    {
        match self {
            LdapAuthError::Config(m) => concat2("LDAP misconfigured: ", m.as_str()),
            LdapAuthError::Connection(m) => concat2("LDAP connection error: ", m.as_str()),
            LdapAuthError::Bind(m) => concat2("LDAP error: ", m.as_str()),
            LdapAuthError::UserNotFound => "User not found".to_string(),
            LdapAuthError::InvalidCredentials => "Invalid credentials".to_string(),
            LdapAuthError::NoRoleAssigned => "User is not a member of any authorized group".to_string(),
        }
    }
}

/// A user the directory signed in, with the role its groups give.
pub struct LdapUser {
    pub role: String,
}

/// The directory groups configured for each role, most privileged first
/// (`None` where the setting is absent).
pub struct RoleGroups {
    pub admin: Option<String>,
    pub manager: Option<String>,
    pub floater: Option<String>,
    pub mfu: Option<String>,
}

/// Whether the configured group `g` is set, non-empty and among `member_of`
/// (ignoring ASCII case).
pub open spec fn in_group(member_of: Seq<Seq<char>>, g: Option<String>) -> bool {
    match g {
        Some(dn) => dn@.len() > 0 && exists|i: int|
            0 <= i < member_of.len() && eq_ignore_ascii_case(#[trigger] member_of[i], dn@),
        None => false,
    }
}

/// The role of the first configured group, in privilege order, that the
/// user belongs to.
pub open spec fn matched_role(member_of: Seq<Seq<char>>, groups: RoleGroups) -> Option<Seq<char>> {
    if in_group(member_of, groups.admin) {
        Some("admin"@)
    } else if in_group(member_of, groups.manager) {
        Some("manager"@)
    } else if in_group(member_of, groups.floater) {
        Some("floater"@)
    } else if in_group(member_of, groups.mfu) {
        Some("mfu"@)
    } else {
        None
    }
}

fn member_of_group(member_of: &Vec<String>, g: &Option<String>) -> (r: bool)
    ensures
        r == in_group(strings_view(member_of@), *g),
{
    match g {
        Some(dn) => {
            if dn.as_str().is_empty() {
                return false;
            }
            let mut i: usize = 0;
            while i < member_of.len()
                invariant
                    i <= member_of.len(),
                    *g == Some(*dn),
                    dn@.len() > 0,
                    forall|k: int|
                        0 <= k < i ==> !eq_ignore_ascii_case(
                            #[trigger] strings_view(member_of@)[k],
                            dn@,
                        ),
                decreases member_of.len() - i,
            {
                if str_eq_ignore_ascii_case(member_of[i].as_str(), dn.as_str()) {
                    assert(strings_view(member_of@)[i as int] == member_of@[i as int]@);
                    assert(eq_ignore_ascii_case(strings_view(member_of@)[i as int], dn@));
                    return true;
                }
                i += 1;
            }
            false
        },
        None => false,
    }
}

/// The role given by the first configured group, in privilege order, that
/// the user's `memberOf` entries name (ignoring ASCII case).
pub fn role_from_groups(member_of: &Vec<String>, groups: &RoleGroups) -> (r: Option<String>)
    ensures
        match r {
            Some(s) => matched_role(strings_view(member_of@), *groups) == Some(s@),
            None => matched_role(strings_view(member_of@), *groups) is None,
        },
{
    if member_of_group(member_of, &groups.admin) {
        Some("admin".to_string())
    } else if member_of_group(member_of, &groups.manager) {
        Some("manager".to_string())
    } else if member_of_group(member_of, &groups.floater) {
        Some("floater".to_string())
    } else if member_of_group(member_of, &groups.mfu) {
        Some("mfu".to_string())
    } else {
        None
    }
}

/// The most privileged configured group wins: a member of the admin group is
/// an admin whatever its other groups, a member of the manager group (and
/// not the admin group) a manager, and so on; a member of none gets no role.
pub proof fn lemma_most_privileged_group_wins(member_of: Seq<Seq<char>>, groups: RoleGroups)
    ensures
        in_group(member_of, groups.admin) ==> matched_role(member_of, groups) == Some("admin"@),
        !in_group(member_of, groups.admin) && in_group(member_of, groups.manager) ==> matched_role(
            member_of,
            groups,
        ) == Some("manager"@),
        !in_group(member_of, groups.admin) && !in_group(member_of, groups.manager) && in_group(
            member_of,
            groups.floater,
        ) ==> matched_role(member_of, groups) == Some("floater"@),
        !in_group(member_of, groups.admin) && !in_group(member_of, groups.manager) && !in_group(
            member_of,
            groups.floater,
        ) && in_group(member_of, groups.mfu) ==> matched_role(member_of, groups) == Some("mfu"@),
        !in_group(member_of, groups.admin) && !in_group(member_of, groups.manager) && !in_group(
            member_of,
            groups.floater,
        ) && !in_group(member_of, groups.mfu) ==> matched_role(member_of, groups) is None,
{
}

/// RFC 4515 escape of one character of a filter value.
pub open spec fn escape_char(c: char) -> Seq<char> {
    if c == '\\' {
        "\\5c"@
    } else if c == '*' {
        "\\2a"@
    } else if c == '(' {
        "\\28"@
    } else if c == ')' {
        "\\29"@
    } else if c == '\0' {
        "\\00"@
    } else {
        seq![c]
    }
}

/// RFC 4515 escape of a filter value, character by character.
pub open spec fn escaped(s: Seq<char>) -> Seq<char>
    decreases s.len(),
{
    if s.len() == 0 {
        Seq::empty()
    } else {
        escaped(s.drop_last()) + escape_char(s.last())
    }
}

/// Escapes a value for an LDAP search filter (RFC 4515), so that it cannot
/// end the filter or add wildcards: `\`, `*`, `(`, `)` and NUL become `\5c`,
/// `\2a`, `\28`, `\29` and `\00`.
pub fn escape_filter_value(value: &str) -> (r: String)
    ensures
        r@ == escaped(value@),
{
    let cs = crate::text::chars_of(value);
    let mut out = String::new();
    let mut i: usize = 0;
    while i < cs.len()
        invariant
            cs@ == value@,
            i <= cs.len(),
            out@ == escaped(cs@.take(i as int)),
        decreases cs.len() - i,
    {
        let c = cs[i];
        let ghost before = out@;
        proof {
            reveal_strlit("\\5c");
            reveal_strlit("\\2a");
            reveal_strlit("\\28");
            reveal_strlit("\\29");
            reveal_strlit("\\00");
        }
        if c == '\\' {
            push_char(&mut out, '\\');
            push_char(&mut out, '5');
            push_char(&mut out, 'c');
        } else if c == '*' {
            push_char(&mut out, '\\');
            push_char(&mut out, '2');
            push_char(&mut out, 'a');
        } else if c == '(' {
            push_char(&mut out, '\\');
            push_char(&mut out, '2');
            push_char(&mut out, '8');
        } else if c == ')' {
            push_char(&mut out, '\\');
            push_char(&mut out, '2');
            push_char(&mut out, '9');
        } else if c == '\0' {
            push_char(&mut out, '\\');
            push_char(&mut out, '0');
            push_char(&mut out, '0');
        } else {
            push_char(&mut out, c);
        }
        assert(out@ =~= before + escape_char(c));
        assert(cs@.take(i + 1).drop_last() =~= cs@.take(i as int));
        i += 1;
    }
    assert(cs@.take(cs.len() as int) =~= cs@);
    out
}

/// Characters that would change the meaning of a filter if left bare.
pub open spec fn filter_special(c: char) -> bool {
    c == '*' || c == '(' || c == ')' || c == '\0'
}

/// An escaped filter value holds no wildcard, no parenthesis and no NUL, so
/// a submitted user name cannot widen or end the search filter.
pub proof fn lemma_escaped_has_no_specials(s: Seq<char>)
    ensures
        forall|i: int| 0 <= i < escaped(s).len() ==> !filter_special(#[trigger] escaped(s)[i]),
    decreases s.len(),
{
    reveal_strlit("\\5c");
    reveal_strlit("\\2a");
    reveal_strlit("\\28");
    reveal_strlit("\\29");
    reveal_strlit("\\00");
    if s.len() > 0 {
        lemma_escaped_has_no_specials(s.drop_last());
        let a = escaped(s.drop_last());
        let b = escape_char(s.last());
        assert forall|i: int| 0 <= i < escaped(s).len() implies !filter_special(
            #[trigger] escaped(s)[i],
        ) by {
            if i < a.len() {
                assert(escaped(s)[i] == a[i]);
            } else {
                assert(escaped(s)[i] == b[i - a.len()]);
            }
        }
    }
}

/// Escaping works piece by piece: escaping a joined value gives the escaped
/// parts joined.
pub proof fn lemma_escape_concat(a: Seq<char>, b: Seq<char>)
    ensures
        escaped(a + b) == escaped(a) + escaped(b),
    decreases b.len(),
{
    if b.len() == 0 {
        assert(a + b =~= a);
        assert(escaped(a) + escaped(b) =~= escaped(a));
    } else {
        lemma_escape_concat(a, b.drop_last());
        assert((a + b).drop_last() =~= a + b.drop_last());
        assert((a + b).last() == b.last());
        assert(escaped(a) + escaped(b) =~= escaped(a) + escaped(b.drop_last()) + escape_char(
            b.last(),
        ));
    }
}

/// A character that escaping rewrites.
pub open spec fn needs_escape(c: char) -> bool {
    c == '\\' || filter_special(c)
}

/// A value with no backslash, wildcard, parenthesis or NUL comes back from
/// escaping unchanged.
pub proof fn lemma_escape_plain_unchanged(s: Seq<char>)
    requires
        forall|i: int| 0 <= i < s.len() ==> !needs_escape(#[trigger] s[i]),
    ensures
        escaped(s) == s,
    decreases s.len(),
{
    if s.len() > 0 {
        lemma_escape_plain_unchanged(s.drop_last());
        assert(!needs_escape(s[s.len() - 1]));
        assert(s.drop_last() + seq![s.last()] =~= s);
    }
}

/// Escaping the first character, then the rest.
proof fn lemma_escaped_front(s: Seq<char>)
    requires
        s.len() > 0,
    ensures
        escaped(s) == escape_char(s[0]) + escaped(s.drop_first()),
{
    lemma_escape_concat(seq![s[0]], s.drop_first());
    assert(seq![s[0]] + s.drop_first() =~= s);
    let one = seq![s[0]];
    assert(one.drop_last() =~= Seq::<char>::empty());
    assert(one.last() == s[0]);
    assert(escaped(Seq::<char>::empty()) =~= Seq::<char>::empty());
    assert(escaped(one) == escaped(one.drop_last()) + escape_char(one.last()));
    assert(Seq::<char>::empty() + escape_char(s[0]) =~= escape_char(s[0]));
    assert(escaped(one) =~= escape_char(s[0]));
}

/// Value of a hexadecimal digit (either case); `None` for any other character.
pub open spec fn hex_value(c: char) -> Option<int> {
    if '0' <= c && c <= '9' {
        Some(c as int - '0' as int)
    } else if 'a' <= c && c <= 'f' {
        Some(c as int - 'a' as int + 10)
    } else if 'A' <= c && c <= 'F' {
        Some(c as int - 'A' as int + 10)
    } else {
        None
    }
}

/// Every backslash in `t` starts an escape `\XX` of two hexadecimal digits.
pub open spec fn escapes_well_formed(t: Seq<char>) -> bool
    decreases t.len(),
{
    if t.len() == 0 {
        true
    } else if t[0] == '\\' {
        t.len() >= 3 && hex_value(t[1]) is Some && hex_value(t[2]) is Some
            && escapes_well_formed(t.subrange(3, t.len() as int))
    } else {
        escapes_well_formed(t.drop_first())
    }
}

/// RFC 4515 reading of a filter value: each `\XX` stands for the character
/// with hexadecimal code `XX`; every other character stands for itself.
pub open spec fn unescaped(t: Seq<char>) -> Seq<char>
    decreases t.len(),
{
    if t.len() == 0 {
        Seq::empty()
    } else if t[0] == '\\' && t.len() >= 3 && hex_value(t[1]) is Some && hex_value(t[2]) is Some {
        seq![(16 * hex_value(t[1]).unwrap() + hex_value(t[2]).unwrap()) as char] + unescaped(
            t.subrange(3, t.len() as int),
        )
    } else {
        seq![t[0]] + unescaped(t.drop_first())
    }
}

/// One escaped character in front of `t` reads back as that character.
proof fn lemma_unescape_step(c: char, t: Seq<char>)
    ensures
        unescaped(escape_char(c) + t) == seq![c] + unescaped(t),
        escapes_well_formed(escape_char(c) + t) == escapes_well_formed(t),
{
    reveal_strlit("\\5c");
    reveal_strlit("\\2a");
    reveal_strlit("\\28");
    reveal_strlit("\\29");
    reveal_strlit("\\00");
    let u = escape_char(c) + t;
    if needs_escape(c) {
        assert(u.subrange(3, u.len() as int) =~= t);
        assert(u[0] == '\\');
        assert(c == '\\' ==> u[1] == '5' && u[2] == 'c');
        assert(c == '*' ==> u[1] == '2' && u[2] == 'a');
        assert(c == '(' ==> u[1] == '2' && u[2] == '8');
        assert(c == ')' ==> u[1] == '2' && u[2] == '9');
        assert(c == '\0' ==> u[1] == '0' && u[2] == '0');
        assert(('\\' as int) == 92);
        assert(('*' as int) == 42);
        assert(('(' as int) == 40);
        assert((')' as int) == 41);
        assert(('\0' as int) == 0);
        assert(('5' as int) - ('0' as int) == 5);
        assert(('2' as int) - ('0' as int) == 2);
        assert(('8' as int) - ('0' as int) == 8);
        assert(('9' as int) - ('0' as int) == 9);
        assert(('c' as int) - ('a' as int) == 2);
        assert(unescaped(u) =~= seq![c] + unescaped(t));
    } else {
        assert(u.drop_first() =~= t);
        assert(u[0] == c);
        assert(unescaped(u) =~= seq![c] + unescaped(t));
    }
}

/// Escaping leaves only well-formed `\XX` escapes, and reading them back
/// (RFC 4515) gives the original value.
pub proof fn lemma_escape_round_trip(s: Seq<char>)
    ensures
        escapes_well_formed(escaped(s)),
        unescaped(escaped(s)) == s,
    decreases s.len(),
{
    if s.len() == 0 {
        assert(unescaped(escaped(s)) =~= s);
    } else {
        lemma_escape_round_trip(s.drop_first());
        lemma_escaped_front(s);
        lemma_unescape_step(s[0], escaped(s.drop_first()));
        assert(seq![s[0]] + s.drop_first() =~= s);
    }
}

/// The settings a directory sign-in needs.
pub struct LdapSettings {
    pub url: String,
    pub bind_dn: String,
    pub bind_password: String,
    pub search_base: String,
    pub domain: String,
}

/// The configuration problem a directory sign-in meets first, if any: each
/// required setting must be present, and the server address must use
/// `ldaps://` (ignoring ASCII case) so that no password travels in clear.
pub open spec fn ldap_config_problem(
    url: Option<String>,
    bind_dn: Option<String>,
    bind_password: Option<String>,
    search_base: Option<String>,
) -> Option<Seq<char>> {
    if url is None {
        Some("LDAP_URL not set"@)
    } else if !starts_with_ascii_lower(url.unwrap()@, "ldaps://"@) {
        Some("LDAP_URL must use ldaps:// — plain ldap:// would send bind passwords in plaintext"@)
    } else if bind_dn is None {
        Some("LDAP_BIND_DN not set"@)
    } else if bind_password is None {
        Some("LDAP_BIND_PASSWORD not set"@)
    } else if search_base is None {
        Some("LDAP_USER_SEARCH_BASE not set"@)
    } else {
        None
    }
}

/// Config error carrying message `m`.
pub open spec fn is_config(e: LdapAuthError, m: Seq<char>) -> bool {
    e matches LdapAuthError::Config(x) && x@ == m
}

/// Checks a sign-in before any connection is made and gathers its settings
/// (the domain defaults to empty).
pub fn prepare_ldap_login(
    password: &str,
    url: Option<String>,
    bind_dn: Option<String>,
    bind_password: Option<String>,
    search_base: Option<String>,
    domain: Option<String>,
) -> (r: Result<LdapSettings, LdapAuthError>)
    ensures
        password@.len() == 0 ==> r matches Err(LdapAuthError::InvalidCredentials),
        password@.len() > 0 ==> match ldap_config_problem(url, bind_dn, bind_password, search_base) {
            Some(m) => r matches Err(e) && is_config(e, m),
            None => r matches Ok(s) && s.url@ == url.unwrap()@ && s.bind_dn@ == bind_dn.unwrap()@
                && s.bind_password@ == bind_password.unwrap()@ && s.search_base@
                == search_base.unwrap()@ && s.domain@ == match domain {
                Some(d) => d@,
                None => Seq::<char>::empty(),
            },
        },
{
    if password.is_empty() {
        return Err(LdapAuthError::InvalidCredentials);
    }
    let url = match url {
        Some(u) => u,
        None => return Err(LdapAuthError::Config("LDAP_URL not set".to_string())),
    };
    if !lower_starts_with(url.as_str(), "ldaps://") {
        return Err(
            LdapAuthError::Config(
                "LDAP_URL must use ldaps:// — plain ldap:// would send bind passwords in plaintext".to_string(),
            ),
        );
    }
    let bind_dn = match bind_dn {
        Some(v) => v,
        None => return Err(LdapAuthError::Config("LDAP_BIND_DN not set".to_string())),
    };
    let bind_password = match bind_password {
        Some(v) => v,
        None => return Err(LdapAuthError::Config("LDAP_BIND_PASSWORD not set".to_string())),
    };
    let search_base = match search_base {
        Some(v) => v,
        None => return Err(LdapAuthError::Config("LDAP_USER_SEARCH_BASE not set".to_string())),
    };
    let domain = match domain {
        Some(d) => d,
        None => String::new(),
    };
    Ok(LdapSettings { url, bind_dn, bind_password, search_base, domain })
}

/// The search filter for a user: by account name, and also by principal name
/// `user@domain` when a domain is configured; the name is escaped.
pub open spec fn user_filter_spec(username: Seq<char>, domain: Seq<char>) -> Seq<char> {
    let u = escaped(username);
    if domain.len() == 0 {
        "(sAMAccountName="@ + u + ")"@
    } else {
        "(|(sAMAccountName="@ + u + ")(userPrincipalName="@ + u + "@"@ + domain + "))"@
    }
}

/// The search filter that finds a signing-in user.
pub fn user_search_filter(username: &str, domain: &str) -> (r: String)
    ensures
        r@ == user_filter_spec(username@, domain@),
{
    let safe = escape_filter_value(username);
    if domain.is_empty() {
        concat2(concat2("(sAMAccountName=", safe.as_str()).as_str(), ")")
    } else {
        let mut s = concat2("(|(sAMAccountName=", safe.as_str());
        s = concat2(s.as_str(), ")(userPrincipalName=");
        s = concat2(s.as_str(), safe.as_str());
        s = concat2(s.as_str(), "@");
        s = concat2(s.as_str(), domain);
        concat2(s.as_str(), "))")
    }
}

/// The outcome of a sign-in whose password the directory accepted: the role
/// of the user's groups, or `NoRoleAssigned`.
pub fn ldap_user_for(member_of: &Vec<String>, groups: &RoleGroups) -> (r: Result<LdapUser, LdapAuthError>)
    ensures
        match matched_role(strings_view(member_of@), *groups) {
            Some(role) => r matches Ok(u) && u.role@ == role,
            None => r matches Err(LdapAuthError::NoRoleAssigned),
        },
{
    match role_from_groups(member_of, groups) {
        Some(role) => Ok(LdapUser { role }),
        None => Err(LdapAuthError::NoRoleAssigned),
    }
}

/// The group named by a distinguished name: its first component when that is
/// `CN=...`, lowercased.
pub open spec fn cn_of(dn: Seq<char>) -> Option<Seq<char>> {
    let first = split_char(dn, ',')[0];
    if starts_with(first, "CN="@) {
        Some(unicode_lowercase(first.skip(3)))
    } else {
        None
    }
}

/// Whether one of the `memberOf` entries names group `g`.
pub open spec fn names_group(member_of: Seq<Seq<char>>, g: Seq<char>) -> bool {
    exists|i: int| 0 <= i < member_of.len() && cn_of(#[trigger] member_of[i]) == Some(g)
}

/// The role of a signed-in user: the first of admin, manager, supervisor,
/// vaa, univ and read that one of its groups is named, else read.
pub open spec fn login_role_spec(member_of: Seq<Seq<char>>) -> Seq<char> {
    if names_group(member_of, "admin"@) {
        "admin"@
    } else if names_group(member_of, "manager"@) {
        "manager"@
    } else if names_group(member_of, "supervisor"@) {
        "supervisor"@
    } else if names_group(member_of, "vaa"@) {
        "vaa"@
    } else if names_group(member_of, "univ"@) {
        "univ"@
    } else {
        "read"@
    }
}

/// The login role follows the groups' own names in priority order: a user
/// with an `admin` group is admin; otherwise one with a `manager` group is
/// manager; then `supervisor`, `vaa` and `univ` likewise; a user none of
/// whose groups is one of these gets `read`.
pub proof fn lemma_login_role_by_priority(member_of: Seq<Seq<char>>)
    ensures
        (exists|i: int| 0 <= i < member_of.len() && cn_of(#[trigger] member_of[i]) == Some("admin"@))
            ==> login_role_spec(member_of) == "admin"@,
        (exists|i: int| 0 <= i < member_of.len() && cn_of(#[trigger] member_of[i]) == Some("manager"@))
            && (forall|i: int| 0 <= i < member_of.len() ==> cn_of(#[trigger] member_of[i]) != Some("admin"@))
            ==> login_role_spec(member_of) == "manager"@,
        (exists|i: int| 0 <= i < member_of.len() && cn_of(#[trigger] member_of[i]) == Some("supervisor"@))
            && (forall|i: int| 0 <= i < member_of.len() ==> cn_of(#[trigger] member_of[i]) != Some("admin"@)
                && cn_of(member_of[i]) != Some("manager"@))
            ==> login_role_spec(member_of) == "supervisor"@,
        (exists|i: int| 0 <= i < member_of.len() && cn_of(#[trigger] member_of[i]) == Some("vaa"@))
            && (forall|i: int| 0 <= i < member_of.len() ==> cn_of(#[trigger] member_of[i]) != Some("admin"@)
                && cn_of(member_of[i]) != Some("manager"@) && cn_of(member_of[i]) != Some("supervisor"@))
            ==> login_role_spec(member_of) == "vaa"@,
        (exists|i: int| 0 <= i < member_of.len() && cn_of(#[trigger] member_of[i]) == Some("univ"@))
            && (forall|i: int| 0 <= i < member_of.len() ==> cn_of(#[trigger] member_of[i]) != Some("admin"@)
                && cn_of(member_of[i]) != Some("manager"@) && cn_of(member_of[i]) != Some("supervisor"@)
                && cn_of(member_of[i]) != Some("vaa"@))
            ==> login_role_spec(member_of) == "univ"@,
        (forall|i: int| 0 <= i < member_of.len() ==> cn_of(#[trigger] member_of[i]) != Some("admin"@)
            && cn_of(member_of[i]) != Some("manager"@) && cn_of(member_of[i]) != Some("supervisor"@)
            && cn_of(member_of[i]) != Some("vaa"@) && cn_of(member_of[i]) != Some("univ"@))
            ==> login_role_spec(member_of) == "read"@,
{
}

fn group_name(dn: &str) -> (r: Option<String>)
    ensures
        match r {
            Some(s) => cn_of(dn@) == Some(s@),
            None => cn_of(dn@) is None,
        },
{
    let parts = split_chars(dn, ',');
    proof {
        lemma_split_nonempty(dn@, ',');
    }
    let first = &parts[0];
    assert(first@ == split_char(dn@, ',')[0]);
    if str_starts_with(first.as_str(), "CN=") {
        let cs = crate::text::chars_of(first.as_str());
        proof {
            reveal_strlit("CN=");
        }
        let rest = crate::text::string_of_range(&cs, 3, cs.len());
        assert(rest@ =~= first@.skip(3));
        Some(to_lowercase(rest.as_str()))
    } else {
        None
    }
}

/// The role a signed-in user gets from its `memberOf` entries (none when the
/// directory found no entry for it).
pub fn role_from_member_of(member_of: &Vec<String>) -> (r: String)
    ensures
        r@ == login_role_spec(strings_view(member_of@)),
{
    let mut names: Vec<String> = Vec::new();
    let mut i: usize = 0;
    while i < member_of.len()
        invariant
            i <= member_of.len(),
            forall|g: Seq<char>|
                #![trigger strings_view(names@).contains(g)]
                strings_view(names@).contains(g) <==> exists|k: int|
                    0 <= k < i && cn_of(#[trigger] member_of@[k]@) == Some(g),
        decreases member_of.len() - i,
    {
        let ghost before = names@;
        match group_name(member_of[i].as_str()) {
            Some(n) => {
                names.push(n);
                assert(strings_view(names@) =~= strings_view(before).push(n@));
            },
            None => {},
        }
        proof {
            assert forall|g: Seq<char>|
                strings_view(names@).contains(g) <==> exists|k: int|
                    0 <= k < i + 1 && cn_of(#[trigger] member_of@[k]@) == Some(g) by {
                if strings_view(names@).contains(g) {
                    if !strings_view(before).contains(g) {
                        let q = choose|q: int| 0 <= q < strings_view(names@).len() && strings_view(names@)[q] == g;
                        if q < before.len() {
                            assert(strings_view(before)[q] == g);
                        }
                        assert(cn_of(member_of@[i as int]@) == Some(g));
                    }
                }
                if exists|k: int| 0 <= k < i + 1 && cn_of(#[trigger] member_of@[k]@) == Some(g) {
                    let k = choose|k: int| 0 <= k < i + 1 && cn_of(#[trigger] member_of@[k]@) == Some(g);
                    if k < i {
                        assert(strings_view(before).contains(g));
                        let q = choose|q: int| 0 <= q < strings_view(before).len() && strings_view(before)[q] == g;
                        assert(strings_view(names@)[q] == g);
                    } else {
                        assert(strings_view(names@)[strings_view(names@).len() - 1] == g);
                    }
                }
            }
        }
        i += 1;
    }
    proof {
        assert forall|g: Seq<char>|
            strings_view(names@).contains(g) == names_group(strings_view(member_of@), g) by {
            if names_group(strings_view(member_of@), g) {
                let k = choose|k: int|
                    0 <= k < strings_view(member_of@).len() && cn_of(#[trigger] strings_view(member_of@)[k]) == Some(g);
                assert(cn_of(member_of@[k]@) == Some(g));
            }
            if strings_view(names@).contains(g) {
                let k = choose|k: int| 0 <= k < i && cn_of(#[trigger] member_of@[k]@) == Some(g);
                assert(strings_view(member_of@)[k] == member_of@[k]@);
            }
        }
    }
    if names_contain(&names, "admin") {
        "admin".to_string()
    } else if names_contain(&names, "manager") {
        "manager".to_string()
    } else if names_contain(&names, "supervisor") {
        "supervisor".to_string()
    } else if names_contain(&names, "vaa") {
        "vaa".to_string()
    } else if names_contain(&names, "univ") {
        "univ".to_string()
    } else {
        "read".to_string()
    }
}

fn names_contain(v: &Vec<String>, s: &str) -> (r: bool)
    ensures
        r == strings_view(v@).contains(s@),
{
    let mut i: usize = 0;
    while i < v.len()
        invariant
            i <= v.len(),
            forall|j: int| 0 <= j < i ==> v@[j]@ != s@,
        decreases v.len() - i,
    {
        if crate::text::str_eq(v[i].as_str(), s) {
            assert(strings_view(v@)[i as int] == s@);
            return true;
        }
        i += 1;
    }
    proof {
        if strings_view(v@).contains(s@) {
            let j = choose|j: int| 0 <= j < strings_view(v@).len() && strings_view(v@)[j] == s@;
            assert(v@[j]@ == s@);
        }
    }
    false
}

/// The principal name a password sign-in binds with: the name itself when it
/// already holds `@`, else `name@domain`.
pub open spec fn login_upn_spec(username: Seq<char>, domain: Seq<char>) -> Seq<char> {
    if username.contains('@') {
        username
    } else {
        username + "@"@ + domain
    }
}

/// The principal name a password sign-in binds with.
pub fn login_upn(username: &str, domain: &str) -> (r: String)
    ensures
        r@ == login_upn_spec(username@, domain@),
{
    let cs = crate::text::chars_of(username);
    let mut i: usize = 0;
    while i < cs.len()
        invariant
            cs@ == username@,
            i <= cs.len(),
            forall|k: int| 0 <= k < i ==> cs@[k] != '@',
        decreases cs.len() - i,
    {
        if cs[i] == '@' {
            assert(username@.contains('@')) by {
                assert(username@[i as int] == '@');
            }
            return username.to_string();
        }
        i += 1;
    }
    concat2(concat2(username, "@").as_str(), domain)
}

/// The search filter that finds a principal name.
pub fn upn_filter(upn: &str) -> (r: String)
    ensures
        r@ == "(userPrincipalName="@ + upn@ + ")"@,
{
    concat2(concat2("(userPrincipalName=", upn).as_str(), ")")
}

} // verus!
