//! Who an OIDC login may be, before the grant table has anyone: the
//! allowlist the installation was configured with.

use vstd::prelude::*;
use crate::dnscheck;
use crate::settings;
use crate::text;

verus! {

/// `ADMIN_OIDC_USERS` as a list: comma-separated, each trimmed, blanks
/// dropped.
pub open spec fn users_spec(raw: Seq<char>) -> Seq<Seq<char>> {
    text::comma_list_spec(raw)
}

/// The configured allowlist.
pub fn parse_users(raw: &str) -> (r: Vec<String>)
    ensures
        dnscheck::strings(r@) == users_spec(raw@),
{
    text::comma_list(raw)
}

/// An identity is allowlisted when an entry names its subject exactly, or
/// its email ignoring ASCII case.
pub open spec fn allowlisted_spec(users: Seq<Seq<char>>, sub: Seq<char>, email: Option<Seq<char>>) -> bool {
    exists|i: int| 0 <= i < users.len() && #[trigger] names(users[i], sub, email)
}

/// One allowlist entry names this identity.
pub open spec fn names(entry: Seq<char>, sub: Seq<char>, email: Option<Seq<char>>) -> bool {
    entry == sub || (email matches Some(e) && text::lower_seq(e) == text::lower_seq(entry))
}

pub fn allowlisted(users: &[String], sub: &str, email: Option<&str>) -> (r: bool)
    ensures
        r == allowlisted_spec(
            dnscheck::strings(users@),
            sub@,
            match email {
                Some(e) => Some(e@),
                None => None,
            },
        ),
{
    let ghost uv = dnscheck::strings(users@);
    let ghost ev = match email {
        Some(e) => Some(e@),
        None => None::<Seq<char>>,
    };
    let s = text::chars_of(sub);
    let e = match email {
        Some(x) => Some(text::chars_of(x)),
        None => None,
    };
    let mut i: usize = 0;
    while i < users.len()
        invariant
            i <= users@.len(),
            uv == dnscheck::strings(users@),
            s@ == sub@,
            ev == match email {
                Some(x) => Some(x@),
                None => None::<Seq<char>>,
            },
            match e {
                Some(x) => ev == Some(x@),
                None => ev is None,
            },
            forall|j: int| 0 <= j < i ==> !#[trigger] names(uv[j], sub@, ev),
        decreases users@.len() - i,
    {
        let u = text::chars_of(users[i].as_str());
        assert(uv[i as int] == u@);
        let by_email = match &e {
            Some(x) => text::eq_ignore_case(x, &u),
            None => false,
        };
        if text::seq_eq(&u, &s) || by_email {
            assert(names(uv[i as int], sub@, ev));
            return true;
        }
        i = i + 1;
    }
    false
}

/// The issuer as compared: without trailing slashes.
pub fn issuer_of(raw: &str) -> (r: String)
    ensures
        r@ == text::strip_end(raw@, '/'),
{
    let c = text::chars_of(raw);
    let s = text::stripped_end(&c, '/');
    text::string_of(&s)
}

/// How a verified login is named in the records it leaves: its email
/// when the token carries one, its subject otherwise.
pub fn actor(sub: &str, email: Option<&str>) -> (r: String)
    ensures
        r@ == match email {
            Some(e) => e@,
            None => sub@,
        },
{
    match email {
        Some(e) => text::string_of(&text::chars_of(e)),
        None => text::string_of(&text::chars_of(sub)),
    }
}

/// What an OIDC login is configured with, before any key material.
pub struct LoginSettings {
    /// Without trailing slashes.
    pub issuer: String,
    pub client_id: String,
    pub client_secret: Option<String>,
    /// Never empty.
    pub users: Vec<String>,
}

/// The OIDC settings as read from the environment, absent when unset.
pub struct OidcSettings<'a> {
    /// `ADMIN_OIDC_ISSUER`
    pub issuer: Option<&'a str>,
    /// `ADMIN_OIDC_CLIENT_ID`
    pub client_id: Option<&'a str>,
    /// `ADMIN_OIDC_USERS`
    pub users: Option<&'a str>,
    /// `ADMIN_OIDC_CLIENT_SECRET`
    pub client_secret: Option<&'a str>,
}

/// The login settings as values.
pub struct LoginModel {
    pub issuer: Seq<char>,
    pub client_id: Seq<char>,
    pub client_secret: Option<Seq<char>>,
    pub users: Seq<Seq<char>>,
}

/// The login the settings configure: none without an issuer; with one, a
/// client id and at least one allowlisted user are required, in that
/// order, so that a half-configured login fails at startup.
pub open spec fn login_spec(
    issuer: Option<Seq<char>>,
    client_id: Option<Seq<char>>,
    users: Option<Seq<char>>,
    client_secret: Option<Seq<char>>,
) -> Result<Option<LoginModel>, Seq<char>> {
    match issuer {
        None => Ok(None),
        Some(i) => if client_id is None {
            Err("ADMIN_OIDC_ISSUER is set but ADMIN_OIDC_CLIENT_ID is not"@)
        } else if users is None {
            Err("ADMIN_OIDC_ISSUER is set but ADMIN_OIDC_USERS is not"@)
        } else if users_spec(users->0).len() == 0 {
            Err("ADMIN_OIDC_USERS must name at least one admin"@)
        } else {
            Ok(
                Some(
                    LoginModel {
                        issuer: text::strip_end(i, '/'),
                        client_id: client_id->0,
                        client_secret,
                        users: users_spec(users->0),
                    },
                ),
            )
        },
    }
}

impl LoginSettings {
    pub open spec fn matches(&self, m: LoginModel) -> bool {
        &&& self.issuer@ == m.issuer
        &&& self.client_id@ == m.client_id
        &&& self.client_secret.deep_view() == m.client_secret
        &&& dnscheck::strings(self.users@) == m.users
    }
}

/// The login the settings configure, as [`login_spec`] says.
pub fn login_settings(s: &OidcSettings) -> (r: Result<Option<LoginSettings>, String>)
    ensures
        match (r, login_spec(
            settings::opt_chars(s.issuer),
            settings::opt_chars(s.client_id),
            settings::opt_chars(s.users),
            settings::opt_chars(s.client_secret),
        )) {
            (Ok(None), Ok(None)) => true,
            (Ok(Some(v)), Ok(Some(m))) => v.matches(m),
            (Err(e), Err(m)) => e@ == m,
            _ => false,
        },
{
    let issuer = match s.issuer {
        Some(i) => issuer_of(i),
        None => {
            return Ok(None);
        },
    };
    let client_id = match s.client_id {
        Some(c) => text::string_of(&text::chars_of(c)),
        None => {
            return Err(
                text::string_of(&text::chars_of("ADMIN_OIDC_ISSUER is set but ADMIN_OIDC_CLIENT_ID is not")),
            );
        },
    };
    let users = match s.users {
        Some(u) => parse_users(u),
        None => {
            return Err(
                text::string_of(&text::chars_of("ADMIN_OIDC_ISSUER is set but ADMIN_OIDC_USERS is not")),
            );
        },
    };
    if users.len() == 0 {
        return Err(text::string_of(&text::chars_of("ADMIN_OIDC_USERS must name at least one admin")));
    }
    let client_secret = match s.client_secret {
        Some(c) => Some(text::string_of(&text::chars_of(c))),
        None => None,
    };
    Ok(Some(LoginSettings { issuer, client_id, client_secret, users }))
}

} // verus!
