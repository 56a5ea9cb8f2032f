//! The decisions of the HTTP surface: who is let in, with which role, what
//! a request must carry, and what each refusal answers.
//!
//! Two credentials exist and must stay apart: a tenant key sends mail; an
//! admin credential mints and revokes tenant keys, a strictly greater
//! privilege that must not be reachable from a leaked tenant credential.

use vstd::prelude::*;
use crate::apikey;
use crate::text;

verus! {

/// One error type, one JSON shape.
#[derive(Debug)]
pub enum ApiError {
    Unauthorized,
    /// The caller asked for something malformed. The message is shown to
    /// them, so it says what to fix.
    BadRequest(String),
    NotFound,
    /// Authenticated, but the action needs the admin role. Distinct from
    /// 401 so the UI does not throw away a perfectly good session.
    Forbidden,
    /// The admin surface was called but no admin credential is configured.
    AdminDisabled,
    /// Something on our side. The detail is for the log, never returned.
    Internal(String),
}

pub enum ApiErrorView {
    Unauthorized,
    BadRequest(Seq<char>),
    NotFound,
    Forbidden,
    AdminDisabled,
    Internal(Seq<char>),
}

impl View for ApiError {
    type V = ApiErrorView;

    open spec fn view(&self) -> ApiErrorView {
        match self {
            ApiError::Unauthorized => ApiErrorView::Unauthorized,
            ApiError::BadRequest(m) => ApiErrorView::BadRequest(m@),
            ApiError::NotFound => ApiErrorView::NotFound,
            ApiError::Forbidden => ApiErrorView::Forbidden,
            ApiError::AdminDisabled => ApiErrorView::AdminDisabled,
            ApiError::Internal(m) => ApiErrorView::Internal(m@),
        }
    }
}

/// The HTTP status and the message an error answers with.
pub open spec fn response_spec(e: ApiErrorView) -> (u16, Seq<char>) {
    match e {
        ApiErrorView::Unauthorized => (401, "missing or invalid API key"@),
        ApiErrorView::BadRequest(m) => (400, m),
        ApiErrorView::NotFound => (404, "not found"@),
        ApiErrorView::Forbidden => (403, "this action requires the admin role"@),
        ApiErrorView::AdminDisabled => (
            503,
            "admin surface is not configured (ADMIN_TOKEN is unset)"@,
        ),
        ApiErrorView::Internal(_) => (500, "internal error"@),
    }
}

impl ApiError {
    /// The status and the `error` message of the JSON body.
    pub fn response(&self) -> (r: (u16, String))
        ensures
            (r.0, r.1@) == response_spec(self@),
    {
        let (status, message) = match self {
            ApiError::Unauthorized => (401u16, text::chars_of("missing or invalid API key")),
            ApiError::BadRequest(m) => (400u16, text::chars_of(m.as_str())),
            ApiError::NotFound => (404u16, text::chars_of("not found")),
            ApiError::Forbidden => (403u16, text::chars_of("this action requires the admin role")),
            ApiError::AdminDisabled => (
                503u16,
                text::chars_of("admin surface is not configured (ADMIN_TOKEN is unset)"),
            ),
            ApiError::Internal(_) => (500u16, text::chars_of("internal error")),
        };
        (status, text::string_of(&message))
    }
}

/// An error page is not a place to leak a connection string: whatever an
/// internal failure was, the answer is the same.
pub proof fn internal_detail_is_never_returned(a: Seq<char>, b: Seq<char>)
    ensures
        response_spec(ApiErrorView::Internal(a)) == response_spec(ApiErrorView::Internal(b)),
        response_spec(ApiErrorView::Internal(a)).0 == 500,
{
}

/// The text of several pieces.
pub open spec fn cat(parts: Seq<Seq<char>>) -> Seq<char> {
    text::join(parts, Seq::empty())
}

// ----------------------------------------------------------------- roles

#[derive(Debug, Clone, Copy, PartialEq, Eq, Structural)]
pub enum Role {
    /// Everything, including minting keys and managing users.
    Admin,
    /// Sees everything, changes nothing.
    Viewer,
}

impl Role {
    /// The role's name as the UI and the grant table spell it.
    pub fn as_str(&self) -> (r: &'static str)
        ensures
            r@ == role_name(*self),
    {
        match self {
            Role::Admin => "admin",
            Role::Viewer => "viewer",
        }
    }
}

pub open spec fn role_name(r: Role) -> Seq<char> {
    match r {
        Role::Admin => "admin"@,
        Role::Viewer => "viewer"@,
    }
}

/// An authenticated operator: read endpoints take this (any role).
pub struct Admin {
    /// Who this is, for the audit fields: an email, a subject id, or
    /// `admin-token`.
    pub actor: String,
    pub role: Role,
}

/// An operator allowed to CHANGE things.
pub struct AdminWrite(pub Admin);

/// Only the admin role may change anything; a viewer is refused with 403,
/// distinct from 401 because the session is fine and the role is not.
pub fn require_write(admin: Admin) -> (r: Result<AdminWrite, ApiError>)
    ensures
        admin.role == Role::Admin ==> (r matches Ok(w) && w.0 == admin),
        admin.role == Role::Viewer ==> (r matches Err(e) && e@ == ApiErrorView::Forbidden),
{
    if admin.role != Role::Admin {
        return Err(ApiError::Forbidden);
    }
    Ok(AdminWrite(admin))
}

/// The role an OIDC identity gets: the grant table decides; while it has
/// no active grant at all, the environment allowlist makes an admin (the
/// bootstrap window that the first grant closes).
pub open spec fn role_for_spec(granted: Option<Seq<char>>, any_active: bool, allowlisted: bool) -> Option<Role> {
    match granted {
        Some(g) => if g == "admin"@ {
            Some(Role::Admin)
        } else if g == "viewer"@ {
            Some(Role::Viewer)
        } else {
            None
        },
        None => if !any_active && allowlisted {
            Some(Role::Admin)
        } else {
            None
        },
    }
}

/// The role an OIDC identity gets from its grant.
pub fn role_for(granted: Option<&str>, any_active: bool, allowlisted: bool) -> (r: Option<Role>)
    ensures
        r == role_for_spec(
            match granted {
                Some(g) => Some(g@),
                None => None,
            },
            any_active,
            allowlisted,
        ),
{
    match granted {
        Some(g) => {
            let c = text::chars_of(g);
            if text::is_literal(&c, "admin") {
                Some(Role::Admin)
            } else if text::is_literal(&c, "viewer") {
                Some(Role::Viewer)
            } else {
                None
            }
        },
        None => if !any_active && allowlisted {
            Some(Role::Admin)
        } else {
            None
        },
    }
}

/// Once any grant is active, the environment allowlist admits nobody.
pub proof fn the_first_grant_closes_the_bootstrap_window(allowlisted: bool)
    ensures
        role_for_spec(None, true, allowlisted) is None,
{
}

// ----------------------------------------------------------- credentials

/// The credential of an `Authorization: Bearer <token>` header, trimmed.
pub open spec fn bearer_spec(header: Option<Seq<char>>) -> Option<Seq<char>> {
    match header {
        Some(h) => if text::starts_with(h, "Bearer "@) {
            Some(text::trim(h.skip("Bearer "@.len() as int)))
        } else {
            None
        },
        None => None,
    }
}

/// The credential an `Authorization` header presents, if it is a bearer
/// token.
pub fn bearer(header: Option<&str>) -> (r: Option<String>)
    ensures
        r.deep_view() == bearer_spec(
            match header {
                Some(h) => Some(h@),
                None => None,
            },
        ),
{
    match header {
        Some(h) => {
            let c = text::chars_of(h);
            let p = text::chars_of("Bearer ");
            if text::starts_with_seq(&c, &p) {
                let rest = text::slice_of(&c, p.len(), c.len());
                assert(rest@ =~= c@.skip("Bearer "@.len() as int));
                let t = text::trimmed(&rest);
                Some(text::string_of(&t))
            } else {
                None
            }
        },
        None => None,
    }
}

/// Two credentials match when their digests do: two fixed 32-byte values,
/// so the comparison says nothing about where the first difference was.
pub open spec fn same_credential(presented: Seq<char>, configured: Seq<char>) -> bool {
    apikey::hash_spec(presented) == apikey::hash_spec(configured)
}

fn digests_equal(a: &[u8; 32], b: &[u8; 32]) -> (r: bool)
    ensures
        r == (a@ == b@),
{
    let mut i: usize = 0;
    while i < 32
        invariant
            i <= 32,
            a@.len() == 32,
            b@.len() == 32,
            forall|k: int| 0 <= k < i ==> a@[k] == b@[k],
        decreases 32 - i,
    {
        if a[i] != b[i] {
            return false;
        }
        i = i + 1;
    }
    assert(a@ =~= b@);
    true
}

/// Does the presented credential match the configured one?
pub fn credential_matches(presented: &str, configured: &str) -> (r: bool)
    ensures
        r == same_credential(presented@, configured@),
{
    let a = apikey::hash(presented);
    let b = apikey::hash(configured);
    digests_equal(&a, &b)
}

/// What an ingest endpoint (bounces, queue reports) decides about its
/// caller: refuse everything while no token is configured; otherwise the
/// presented bearer token (empty when absent) must match it.
pub open spec fn ingest_access_spec(configured: Option<Seq<char>>, header: Option<Seq<char>>) -> Result<(), ApiErrorView> {
    match configured {
        None => Err(
            ApiErrorView::Internal("BOUNCE_INGEST_TOKEN is not configured; refusing to ingest"@),
        ),
        Some(c) => {
            let presented = match bearer_spec(header) {
                Some(p) => p,
                None => Seq::empty(),
            };
            if same_credential(presented, c) {
                Ok(())
            } else {
                Err(ApiErrorView::Unauthorized)
            }
        },
    }
}

/// May this caller ingest?
pub fn ingest_access(configured: Option<&str>, header: Option<&str>) -> (r: Result<(), ApiError>)
    ensures
        match r {
            Ok(()) => ingest_access_spec(
                match configured {
                    Some(x) => Some(x@),
                    None => None,
                },
                match header {
                    Some(x) => Some(x@),
                    None => None,
                },
            ) is Ok,
            Err(e) => ingest_access_spec(
                match configured {
                    Some(x) => Some(x@),
                    None => None,
                },
                match header {
                    Some(x) => Some(x@),
                    None => None,
                },
            ) == Err::<(), ApiErrorView>(e@),
        },
{
    let expected = match configured {
        Some(c) => c,
        None => {
            let m = text::chars_of("BOUNCE_INGEST_TOKEN is not configured; refusing to ingest");
            return Err(ApiError::Internal(text::string_of(&m)));
        },
    };
    let presented = match bearer(header) {
        Some(p) => p,
        None => String::new(),
    };
    if !credential_matches(presented.as_str(), expected) {
        return Err(ApiError::Unauthorized);
    }
    Ok(())
}

// --------------------------------------------------------- admin callers

/// The first step of letting a caller onto the admin surface, taken
/// before any token is shown to the issuer.
pub enum Admission {
    /// Refused outright.
    Refused(ApiError),
    /// The break-glass token: an admin, known as `admin-token`.
    Admitted(Admin),
    /// A bearer token that only the OIDC issuer can vouch for.
    AskIssuer(String),
}

pub enum AdmissionView {
    Refused(ApiErrorView),
    Admitted(Seq<char>, Role),
    AskIssuer(Seq<char>),
}

impl View for Admission {
    type V = AdmissionView;

    open spec fn view(&self) -> AdmissionView {
        match self {
            Admission::Refused(e) => AdmissionView::Refused(e@),
            Admission::Admitted(a) => AdmissionView::Admitted(a.actor@, a.role),
            Admission::AskIssuer(t) => AdmissionView::AskIssuer(t@),
        }
    }
}

/// With neither credential configured the surface is off and says so (503)
/// rather than pretending to be a login problem; a request without a
/// bearer token is unauthorized; the configured token is an admin; any
/// other token goes to the issuer when OIDC is on, and is refused when it
/// is not.
pub open spec fn admission_spec(admin_token: Option<Seq<char>>, oidc_on: bool, header: Option<Seq<char>>) -> AdmissionView {
    if admin_token is None && !oidc_on {
        AdmissionView::Refused(ApiErrorView::AdminDisabled)
    } else {
        match bearer_spec(header) {
            None => AdmissionView::Refused(ApiErrorView::Unauthorized),
            Some(p) => if admin_token matches Some(t) && same_credential(p, t) {
                AdmissionView::Admitted("admin-token"@, Role::Admin)
            } else if oidc_on {
                AdmissionView::AskIssuer(p)
            } else {
                AdmissionView::Refused(ApiErrorView::Unauthorized)
            },
        }
    }
}

/// The first step of admission, as [`admission_spec`] says.
pub fn admission(admin_token: Option<&str>, oidc_on: bool, header: Option<&str>) -> (r: Admission)
    ensures
        r@ == admission_spec(
            match admin_token {
                Some(t) => Some(t@),
                None => None,
            },
            oidc_on,
            match header {
                Some(h) => Some(h@),
                None => None,
            },
        ),
{
    if admin_token.is_none() && !oidc_on {
        return Admission::Refused(ApiError::AdminDisabled);
    }
    let presented = match bearer(header) {
        Some(p) => p,
        None => {
            return Admission::Refused(ApiError::Unauthorized);
        },
    };
    match admin_token {
        Some(t) => if credential_matches(presented.as_str(), t) {
            let actor = text::string_of(&text::chars_of("admin-token"));
            return Admission::Admitted(Admin { actor, role: Role::Admin });
        },
        None => {},
    }
    if oidc_on {
        Admission::AskIssuer(presented)
    } else {
        Admission::Refused(ApiError::Unauthorized)
    }
}

/// With neither credential configured the surface answers 503 to
/// everyone, whatever the request carries.
pub proof fn an_unconfigured_surface_refuses_everyone(header: Option<Seq<char>>)
    ensures
        admission_spec(None, false, header) == AdmissionView::Refused(ApiErrorView::AdminDisabled),
{
}

/// The second step, once the issuer has vouched for a token naming `sub`
/// (and perhaps `email`): the role comes from [`role_for`], and the caller
/// is known by [`crate::oidc::actor`]; without a role it is unauthorized.
pub fn issuer_admission(
    sub: &str,
    email: Option<&str>,
    granted: Option<&str>,
    any_active: bool,
    allowlisted: bool,
) -> (r: Result<Admin, ApiError>)
    ensures
        match role_for_spec(
            match granted {
                Some(g) => Some(g@),
                None => None,
            },
            any_active,
            allowlisted,
        ) {
            Some(role) => r matches Ok(a) && a.role == role && a.actor@ == match email {
                Some(e) => e@,
                None => sub@,
            },
            None => r matches Err(e) && e@ == ApiErrorView::Unauthorized,
        },
{
    match role_for(granted, any_active, allowlisted) {
        Some(role) => Ok(Admin { actor: crate::oidc::actor(sub, email), role }),
        None => Err(ApiError::Unauthorized),
    }
}

/// A bounce body must carry something.
pub fn bounce_body_present(body: &str) -> (r: Result<(), ApiError>)
    ensures
        text::trim(body@).len() == 0 <==> (r matches Err(e) && e@ == ApiErrorView::BadRequest(
            "empty bounce body"@,
        )),
        r is Ok <==> text::trim(body@).len() > 0,
{
    let c = text::chars_of(body);
    let t = text::trimmed(&c);
    if t.len() == 0 {
        let m = text::chars_of("empty bounce body");
        return Err(ApiError::BadRequest(text::string_of(&m)));
    }
    Ok(())
}

// ---------------------------------------------------------------- paging

/// Rows per page when the caller does not say.
pub const DEFAULT_PAGE_SIZE: i64 = 10;

/// The most any caller may ask for: without a ceiling `?limit=100000`
/// turns keyset paging back into the full scan it exists to avoid.
pub const MAX_PAGE_SIZE: i64 = 100;

/// The page size applied: the default when none is asked for, clamped to
/// `1..=MAX_PAGE_SIZE`.
pub open spec fn page_size_spec(requested: Option<i64>) -> i64 {
    let r = match requested {
        Some(n) => n,
        None => DEFAULT_PAGE_SIZE,
    };
    if r < 1 {
        1
    } else if r > MAX_PAGE_SIZE {
        MAX_PAGE_SIZE
    } else {
        r
    }
}

pub fn page_size(requested: Option<i64>) -> (r: i64)
    ensures
        r == page_size_spec(requested),
        1 <= r <= MAX_PAGE_SIZE,
{
    let r = match requested {
        Some(n) => n,
        None => DEFAULT_PAGE_SIZE,
    };
    if r < 1 {
        1
    } else if r > MAX_PAGE_SIZE {
        MAX_PAGE_SIZE
    } else {
        r
    }
}

/// One page of a keyset-paged list. `next` carries the cursor for the
/// following page, or is `None` on the last page.
#[derive(Debug)]
pub struct Page<T, C> {
    pub items: Vec<T>,
    pub next: Option<C>,
    /// The page size actually applied, after defaulting and clamping.
    pub limit: i64,
}

/// Cut a fetched batch down to a page. The caller fetches `limit + 1`
/// rows: the presence of the extra row proves there IS a next page, and
/// the last row KEPT becomes its cursor; the probe row is never shown.
pub fn paginate<T, C, F: Fn(&T) -> C>(items: Vec<T>, limit: i64, cursor: F) -> (r: Page<T, C>)
    requires
        items@.len() > (limit as usize) && (limit as usize) > 0 ==> call_requires(
            cursor,
            (&items@[(limit as usize) - 1],),
        ),
    ensures
        r.limit == limit,
        items@.len() > (limit as usize) ==> r.items@ == items@.take((limit as usize) as int),
        items@.len() > (limit as usize) && (limit as usize) > 0 ==> (r.next matches Some(c)
            && call_ensures(cursor, (&items@[(limit as usize) - 1],), c)),
        items@.len() > (limit as usize) && (limit as usize) == 0 ==> r.next is None,
        items@.len() <= (limit as usize) ==> r.items@ == items@ && r.next is None,
{
    let keep = limit as usize;
    let mut items = items;
    if items.len() > keep {
        items.truncate(keep);
        if keep == 0 {
            return Page { items, next: None, limit };
        }
        let c = cursor(&items[keep - 1]);
        Page { items, next: Some(c), limit }
    } else {
        Page { items, next: None, limit }
    }
}

// ------------------------------------------------------------- registry

/// A name as the registry takes it: trimmed, no trailing dot, lowercased.
pub open spec fn domain_key(raw: Seq<char>) -> Seq<char> {
    text::lower_seq(text::strip_end(text::trim(raw), '.'))
}

/// Looks like a domain: has a dot, and no `@`, space or `/`.
pub open spec fn domain_shaped(d: Seq<char>) -> bool {
    text::has_char(d, '.') && !text::has_char(d, '@') && !text::has_char(d, ' ') && !text::has_char(d, '/')
}

fn domain_shaped_of(d: &[char]) -> (r: bool)
    ensures
        r == domain_shaped(d@),
{
    text::contains_char(d, '.') && !text::contains_char(d, '@') && !text::contains_char(d, ' ')
        && !text::contains_char(d, '/')
}

/// The sending domains a tenant is created or updated with: each trimmed
/// and lowercased, blanks dropped, at least one, and each shaped like a
/// domain (the first that is not is named).
pub open spec fn cleaned(raw: Seq<Seq<char>>) -> Seq<Seq<char>>
    decreases raw.len(),
{
    if raw.len() == 0 {
        Seq::empty()
    } else {
        let d = text::lower_seq(text::trim(raw.last()));
        if d.len() > 0 {
            cleaned(raw.drop_last()).push(d)
        } else {
            cleaned(raw.drop_last())
        }
    }
}

/// The first domain that is not shaped like one.
pub open spec fn first_misshapen(ds: Seq<Seq<char>>, from: int) -> Option<Seq<char>>
    decreases ds.len() - from,
{
    if from < 0 || from >= ds.len() {
        None
    } else if !domain_shaped(ds[from]) {
        Some(ds[from])
    } else {
        first_misshapen(ds, from + 1)
    }
}

pub open spec fn clean_domains_spec(raw: Seq<Seq<char>>) -> Result<Seq<Seq<char>>, ApiErrorView> {
    let ds = cleaned(raw);
    if ds.len() == 0 {
        Err(ApiErrorView::BadRequest("at least one sending domain is required"@))
    } else {
        match first_misshapen(ds, 0) {
            Some(d) => Err(
                ApiErrorView::BadRequest(cat(seq!["'"@, d, "' does not look like a domain"@])),
            ),
            None => Ok(ds),
        }
    }
}

fn quoted_not_a_domain(d: &[char]) -> (r: ApiError)
    ensures
        r@ == ApiErrorView::BadRequest(cat(seq!["'"@, d@, "' does not look like a domain"@])),
{
    let a = text::chars_of("'");
    let b = text::chars_of("' does not look like a domain");
    let ab = text::concat(&a, d);
    let all = text::concat(&ab, &b);
    proof {
        reveal_with_fuel(text::join, 3);
        assert(seq!["'"@, d@, "' does not look like a domain"@].drop_last() =~= seq!["'"@, d@]);
        assert(seq!["'"@, d@].drop_last() =~= seq!["'"@]);
        assert(cat(seq!["'"@, d@, "' does not look like a domain"@]) =~= "'"@ + d@
            + "' does not look like a domain"@);
    }
    ApiError::BadRequest(text::string_of(&all))
}

/// Check and normalize a tenant's sending domains.
pub fn clean_domains(raw: &[String]) -> (r: Result<Vec<String>, ApiError>)
    ensures
        match r {
            Ok(v) => clean_domains_spec(raw@.map_values(|s: String| s@)) == Ok::<
                Seq<Seq<char>>,
                ApiErrorView,
            >(v@.map_values(|s: String| s@)),
            Err(e) => clean_domains_spec(raw@.map_values(|s: String| s@)) == Err::<
                Seq<Seq<char>>,
                ApiErrorView,
            >(e@),
        },
{
    let ghost rv = raw@.map_values(|s: String| s@);
    let mut domains: Vec<Vec<char>> = Vec::new();
    let mut i: usize = 0;
    while i < raw.len()
        invariant
            i <= raw@.len(),
            rv == raw@.map_values(|s: String| s@),
            text::views(domains@) == cleaned(rv.take(i as int)),
        decreases raw@.len() - i,
    {
        let c = text::chars_of(raw[i].as_str());
        let t = text::trimmed(&c);
        let d = text::lower_of(&t);
        assert(rv.take(i + 1).drop_last() =~= rv.take(i as int));
        assert(rv.take(i + 1).last() == c@);
        if d.len() > 0 {
            let ghost before = text::views(domains@);
            domains.push(d);
            assert(text::views(domains@) =~= before.push(text::lower_seq(text::trim(c@))));
        }
        i = i + 1;
    }
    assert(rv.take(raw@.len() as int) =~= rv);
    let ghost ds = cleaned(rv);
    if domains.len() == 0 {
        let m = text::chars_of("at least one sending domain is required");
        return Err(ApiError::BadRequest(text::string_of(&m)));
    }
    let mut j: usize = 0;
    while j < domains.len()
        invariant
            j <= domains@.len(),
            text::views(domains@) == ds,
            ds == cleaned(raw@.map_values(|s: String| s@)),
            ds.len() > 0,
            first_misshapen(ds, 0) == first_misshapen(ds, j as int),
        decreases domains@.len() - j,
    {
        assert(ds[j as int] == domains@[j as int]@);
        if !domain_shaped_of(&domains[j]) {
            return Err(quoted_not_a_domain(&domains[j]));
        }
        j = j + 1;
    }
    let mut out: Vec<String> = Vec::new();
    let mut k: usize = 0;
    while k < domains.len()
        invariant
            k <= domains@.len(),
            out@.len() == k,
            forall|m: int| 0 <= m < k ==> #[trigger] out@[m]@ == domains@[m]@,
        decreases domains@.len() - k,
    {
        out.push(text::string_of(&domains[k]));
        k = k + 1;
    }
    assert(out@.map_values(|s: String| s@) =~= text::views(domains@));
    Ok(out)
}

/// A required text, trimmed: refused with `message` when blank.
pub open spec fn required_spec(raw: Seq<char>, message: Seq<char>) -> Result<Seq<char>, ApiErrorView> {
    if text::trim(raw).len() == 0 {
        Err(ApiErrorView::BadRequest(message))
    } else {
        Ok(text::trim(raw))
    }
}

/// A required text, trimmed, or the request is refused with `message`.
pub fn required(raw: &str, message: &str) -> (r: Result<String, ApiError>)
    ensures
        match r {
            Ok(s) => required_spec(raw@, message@) == Ok::<Seq<char>, ApiErrorView>(s@),
            Err(e) => required_spec(raw@, message@) == Err::<Seq<char>, ApiErrorView>(e@),
        },
{
    let c = text::chars_of(raw);
    let t = text::trimmed(&c);
    if t.len() == 0 {
        let m = text::chars_of(message);
        return Err(ApiError::BadRequest(text::string_of(&m)));
    }
    Ok(text::string_of(&t))
}

/// The name a tenant is created with.
pub fn tenant_name(raw: &str) -> (r: Result<String, ApiError>)
    ensures
        match r {
            Ok(s) => required_spec(raw@, "name is required"@) == Ok::<Seq<char>, ApiErrorView>(s@),
            Err(e) => required_spec(raw@, "name is required"@) == Err::<Seq<char>, ApiErrorView>(e@),
        },
{
    required(raw, "name is required")
}

/// The identifier a grant is made for (an email or an OIDC subject id).
pub fn grant_identifier(raw: &str) -> (r: Result<String, ApiError>)
    ensures
        match r {
            Ok(s) => required_spec(raw@, "identifier is required"@) == Ok::<Seq<char>, ApiErrorView>(
                s@,
            ),
            Err(e) => required_spec(raw@, "identifier is required"@) == Err::<
                Seq<char>,
                ApiErrorView,
            >(e@),
        },
{
    required(raw, "identifier is required")
}

/// Only the two roles exist.
pub open spec fn valid_role_spec(role: Seq<char>) -> Result<(), ApiErrorView> {
    if role == "admin"@ || role == "viewer"@ {
        Ok(())
    } else {
        Err(ApiErrorView::BadRequest(cat(seq!["unknown role '"@, role, "' (admin or viewer)"@])))
    }
}

pub fn valid_role(role: &str) -> (r: Result<(), ApiError>)
    ensures
        match r {
            Ok(()) => valid_role_spec(role@) is Ok,
            Err(e) => valid_role_spec(role@) == Err::<(), ApiErrorView>(e@),
        },
{
    let c = text::chars_of(role);
    if text::is_literal(&c, "admin") || text::is_literal(&c, "viewer") {
        return Ok(());
    }
    let a = text::chars_of("unknown role '");
    let b = text::chars_of("' (admin or viewer)");
    let ab = text::concat(&a, &c);
    let all = text::concat(&ab, &b);
    proof {
        reveal_with_fuel(text::join, 3);
        assert(seq!["unknown role '"@, role@, "' (admin or viewer)"@].drop_last() =~= seq![
            "unknown role '"@,
            role@,
        ]);
        assert(seq!["unknown role '"@, role@].drop_last() =~= seq!["unknown role '"@]);
        assert(cat(seq!["unknown role '"@, role@, "' (admin or viewer)"@]) =~= "unknown role '"@
            + role@ + "' (admin or viewer)"@);
    }
    Err(ApiError::BadRequest(text::string_of(&all)))
}

} // verus!
