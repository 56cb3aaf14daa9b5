//! Authentication decisions of the HTTP API: the session cookie, bearer tokens, the
//! setup, login and status answers, and how a caller's role is resolved.
use vstd::prelude::*;

use crate::http_types::ApiResponseEmpty;
use crate::text::{chars_of, has_prefix, starts_with, string_of, trimmed, trim_chars};

verus! {

/// The role of a user or token.
#[derive(Clone, Copy, Debug, PartialEq, Eq, Structural)]
pub enum Role {
    Admin,
    Operator,
}

/// The session cookie: always named "lirays_session", for path "/", HTTP only and
/// same-site lax; `max_age` in seconds when given; `secure` as configured.
#[derive(Clone, Debug)]
pub struct SessionCookie {
    pub value: String,
    pub max_age: Option<i64>,
    pub secure: bool,
}

/// The name of the session cookie.
pub const SESSION_COOKIE_NAME: &'static str = "lirays_session";

/// The session cookie carrying `session_id`.
pub fn session_cookie(session_id: String, secure: bool, exp_time_sec: Option<i64>) -> (c: SessionCookie)
    ensures
        c.value == session_id,
        c.max_age == exp_time_sec,
        c.secure == secure,
{
    SessionCookie { value: session_id, max_age: exp_time_sec, secure }
}

/// The token of an authorization header of the form "Bearer {token}".
pub fn bearer_token(header: Option<&str>) -> (t: Option<String>)
    ensures
        match header {
            Some(h) => if has_prefix(h@, "Bearer "@) {
                t matches Some(s) && s@ == h@.skip(7)
            } else {
                t is None
            },
            None => t is None,
        },
{
    match header {
        Some(h) => {
            let v = chars_of(h);
            let p = chars_of("Bearer ");
            proof {
                reveal_strlit("Bearer ");
            }
            if starts_with(v.as_slice(), p.as_slice()) {
                let mut rest: Vec<char> = Vec::new();
                let mut i: usize = 7;
                while i < v.len()
                    invariant
                        7 <= i <= v.len(),
                        rest@ == v@.subrange(7, i as int),
                    decreases v.len() - i,
                {
                    rest.push(v[i]);
                    proof {
                        assert(v@.subrange(7, i + 1) =~= v@.subrange(7, i as int).push(v@[i as int]));
                    }
                    i += 1;
                }
                proof {
                    assert(v@.subrange(7, v@.len() as int) =~= v@.skip(7));
                }
                Some(string_of(rest.as_slice()))
            } else {
                None
            }
        },
        None => None,
    }
}

/// An HTTP answer without data: its status code, body and the cookie it sets, if any.
pub struct HttpAnswer {
    pub status: u16,
    pub body: ApiResponseEmpty,
    pub cookie: Option<SessionCookie>,
}

/// Whether `a` is a failure with status `status`, message `m`, and no cookie.
pub open spec fn refused(a: HttpAnswer, status: u16, m: Seq<char>) -> bool {
    &&& a.status == status
    &&& !a.body.success
    &&& a.body.data is None
    &&& a.body.message matches Some(x) && x@ == m
    &&& a.cookie is None
}

/// Whether `a` is a success (status 200) that sets the session cookie for `session_id`.
pub open spec fn logged_in(a: HttpAnswer, session_id: String, secure: bool) -> bool {
    &&& a.status == 200
    &&& a.body.success
    &&& a.body.data == Some(())
    &&& a.body.message is None
    &&& a.cookie matches Some(c) && c.value == session_id && c.max_age is None && c.secure == secure
}

fn refuse(status: u16, m: String) -> (a: HttpAnswer)
    ensures
        a.status == status,
        a.body.message == Some(m),
        !a.body.success,
        a.body.data is None,
        a.cookie is None,
{
    HttpAnswer { status, body: ApiResponseEmpty::error(m), cookie: None }
}

fn with_session(created: &Result<String, String>, secure: bool) -> (a: HttpAnswer)
    ensures
        match created {
            Ok(id) => logged_in(a, *id, secure),
            Err(e) => refused(a, 500, "Unable to create session: "@ + e@),
        },
{
    match created {
        Ok(id) => HttpAnswer {
            status: 200,
            body: ApiResponseEmpty::success(),
            cookie: Some(session_cookie(id.clone(), secure, None)),
        },
        Err(e) => {
            let mut m = "Unable to create session: ".to_owned();
            let v = chars_of(e.as_str());
            crate::text::push_chars(&mut m, v.as_slice());
            refuse(500, m)
        },
    }
}

/// The checks before the first administrator is created: authentication must be on
/// (403 otherwise), no administrator may exist yet (409; a failed lookup counts as one
/// existing), and the password must not be blank (400). `None` when creation may go on.
pub fn setup_check(auth_enabled: bool, admin_exists: &Result<bool, String>, password: &str) -> (r: Option<HttpAnswer>)
    ensures
        !auth_enabled ==> (r matches Some(a) && refused(a, 403, "Authentication disabled"@)),
        auth_enabled && (admin_exists matches Ok(b) ==> *b) ==> (r matches Some(a) && refused(
            a,
            409,
            "Admin user already exists"@,
        )),
        auth_enabled && admin_exists == Ok::<bool, String>(false) && trimmed(password@).len() == 0
            ==> (r matches Some(a) && refused(a, 400, "Password required"@)),
        auth_enabled && admin_exists == Ok::<bool, String>(false) && trimmed(password@).len() > 0
            ==> r is None,
{
    if !auth_enabled {
        return Some(refuse(403, "Authentication disabled".to_owned()));
    }
    let exists = match admin_exists {
        Ok(b) => *b,
        Err(_) => true,
    };
    if exists {
        return Some(refuse(409, "Admin user already exists".to_owned()));
    }
    let v = chars_of(password);
    let t = trim_chars(v.as_slice());
    if t.len() == 0 {
        return Some(refuse(400, "Password required".to_owned()));
    }
    None
}

/// The answer once the administrator was created (`created`) and, when that succeeded,
/// logged in (`session`): 500 "Failed to create admin user" or 500 "Unable to create
/// session: {e}" on failure, otherwise success with the session cookie.
pub fn setup_done(created: &Result<(), String>, session: &Result<String, String>, secure: bool) -> (a: HttpAnswer)
    ensures
        created is Err ==> refused(a, 500, "Failed to create admin user"@),
        created is Ok ==> match session {
            Ok(id) => logged_in(a, *id, secure),
            Err(e) => refused(a, 500, "Unable to create session: "@ + e@),
        },
{
    match created {
        Err(_) => refuse(500, "Failed to create admin user".to_owned()),
        Ok(_) => with_session(session, secure),
    }
}

/// The answer to a login: 403 when authentication is off; 500 when the user lookup
/// failed; 401 "The user has not been set up yet." for an unknown user; 401 "Invalid
/// credentials." when the password does not match (a failed check counts as a
/// mismatch); then the session, as in `setup_done`. Each result is looked at only when
/// the steps before it succeeded.
pub fn login_answer(
    auth_enabled: bool,
    user_found: &Result<bool, String>,
    password_ok: &Result<bool, String>,
    session: &Result<String, String>,
    secure: bool,
) -> (a: HttpAnswer)
    ensures
        !auth_enabled ==> refused(a, 403, "Authentication disabled"@),
        auth_enabled ==> match user_found {
            Err(_) => refused(a, 500, "Unable to log in right now. Please try again."@),
            Ok(false) => refused(a, 401, "The user has not been set up yet."@),
            Ok(true) => if password_ok == Ok::<bool, String>(true) {
                match session {
                    Ok(id) => logged_in(a, *id, secure),
                    Err(e) => refused(a, 500, "Unable to create session: "@ + e@),
                }
            } else {
                refused(a, 401, "Invalid credentials."@)
            },
        },
{
    if !auth_enabled {
        return refuse(403, "Authentication disabled".to_owned());
    }
    match user_found {
        Err(_) => refuse(500, "Unable to log in right now. Please try again.".to_owned()),
        Ok(false) => refuse(401, "The user has not been set up yet.".to_owned()),
        Ok(true) => {
            let ok = match password_ok {
                Ok(b) => *b,
                Err(_) => false,
            };
            if !ok {
                refuse(401, "Invalid credentials.".to_owned())
            } else {
                with_session(session, secure)
            }
        },
    }
}

/// The user shown in the authentication status.
#[derive(Clone, Debug)]
pub struct UserInfo {
    pub username: String,
    pub role: Role,
}

/// The authentication status the UI starts from.
#[derive(Clone, Debug)]
pub struct AuthStatusResponse {
    pub auth_enabled: bool,
    pub authenticated: bool,
    pub admin_exists: bool,
    pub user: Option<UserInfo>,
}

/// The authentication status: all false when authentication is off; otherwise whether
/// an administrator exists (a failed lookup counts as none), and, only when one does,
/// the user of the caller's session (`session_user`: found when the session cookie's
/// session verified and its user was loaded), the caller counting as authenticated
/// exactly when that user is known.
pub fn auth_status_answer(
    auth_enabled: bool,
    admin_exists: &Result<bool, String>,
    session_user: Option<UserInfo>,
) -> (r: AuthStatusResponse)
    ensures
        !auth_enabled ==> !r.auth_enabled && !r.authenticated && !r.admin_exists && r.user is None,
        auth_enabled ==> r.auth_enabled && r.admin_exists == (admin_exists == Ok::<bool, String>(true)),
        auth_enabled && admin_exists != Ok::<bool, String>(true) ==> !r.authenticated && r.user is None,
        auth_enabled && admin_exists == Ok::<bool, String>(true) ==> r.user == session_user
            && r.authenticated == session_user is Some,
{
    if !auth_enabled {
        return AuthStatusResponse { auth_enabled: false, authenticated: false, admin_exists: false, user: None };
    }
    let exists = match admin_exists {
        Ok(b) => *b,
        Err(_) => false,
    };
    if !exists {
        return AuthStatusResponse { auth_enabled: true, authenticated: false, admin_exists: false, user: None };
    }
    let authenticated = session_user.is_some();
    AuthStatusResponse { auth_enabled: true, authenticated, admin_exists: true, user: session_user }
}

/// What resolving a caller's role needs next.
pub enum RoleQuery {
    /// Verify this personal access token.
    CheckToken(String),
    /// Read the role in the access token of this session.
    SessionClaims(String),
    /// Rotate this session with its refresh token.
    Refresh(String),
    /// Read the role in the access token of this freshly rotated session.
    RefreshedClaims(String),
}

/// Where resolving a caller's role stands.
pub enum RoleStep {
    Ask(RoleQuery),
    /// The caller has this role; a rotated session's cookie is to be set.
    Grant(Role, Option<SessionCookie>),
    /// The caller is refused with status 401.
    Deny,
}

/// A bearer token is verified first; without one, the session cookie is used; with
/// neither the caller is refused.
pub fn role_start(bearer: Option<String>, session_id: Option<String>) -> (s: RoleStep)
    ensures
        match bearer {
            Some(t) => s == RoleStep::Ask(RoleQuery::CheckToken(t)),
            None => match session_id {
                Some(id) => s == RoleStep::Ask(RoleQuery::SessionClaims(id)),
                None => s is Deny,
            },
        },
{
    match bearer {
        Some(t) => RoleStep::Ask(RoleQuery::CheckToken(t)),
        None => match session_id {
            Some(id) => RoleStep::Ask(RoleQuery::SessionClaims(id)),
            None => RoleStep::Deny,
        },
    }
}

/// A verified token grants its role; any failure refuses.
pub fn role_after_token(checked: Result<Role, String>) -> (s: RoleStep)
    ensures
        match checked {
            Ok(r) => s == RoleStep::Grant(r, None),
            Err(_) => s is Deny,
        },
{
    match checked {
        Ok(r) => RoleStep::Grant(r, None),
        Err(_) => RoleStep::Deny,
    }
}

/// A session whose access token reads grants its role; otherwise the session is rotated.
pub fn role_after_claims(session_id: String, role: Option<Role>) -> (s: RoleStep)
    ensures
        match role {
            Some(r) => s == RoleStep::Grant(r, None),
            None => s == RoleStep::Ask(RoleQuery::Refresh(session_id)),
        },
{
    match role {
        Some(r) => RoleStep::Grant(r, None),
        None => RoleStep::Ask(RoleQuery::Refresh(session_id)),
    }
}

/// A rotated session is read next; a failed rotation refuses.
pub fn role_after_refresh(refreshed: Result<String, String>) -> (s: RoleStep)
    ensures
        match refreshed {
            Ok(id) => s == RoleStep::Ask(RoleQuery::RefreshedClaims(id)),
            Err(_) => s is Deny,
        },
{
    match refreshed {
        Ok(id) => RoleStep::Ask(RoleQuery::RefreshedClaims(id)),
        Err(_) => RoleStep::Deny,
    }
}

/// The rotated session's role is granted with its cookie; otherwise the caller is refused.
pub fn role_after_refreshed_claims(new_session_id: String, role: Option<Role>, secure: bool) -> (s: RoleStep)
    ensures
        match role {
            Some(r) => s matches RoleStep::Grant(g, Some(c)) && g == r && c.value == new_session_id
                && c.max_age is None && c.secure == secure,
            None => s is Deny,
        },
{
    match role {
        Some(r) => RoleStep::Grant(r, Some(session_cookie(new_session_id, secure, None))),
        None => RoleStep::Deny,
    }
}

/// Whether a request to `path` gets the caller's role attached: those under "/ws".
pub fn attaches_role(path: &str) -> (r: bool)
    ensures
        r == has_prefix(path@, "/ws"@),
{
    let v = chars_of(path);
    let p = chars_of("/ws");
    starts_with(v.as_slice(), p.as_slice())
}

/// Whether a role passes the administrator-only routes.
pub fn admin_allowed(role: Role) -> (r: bool)
    ensures
        r == (role == Role::Admin),
{
    match role {
        Role::Admin => true,
        Role::Operator => false,
    }
}

/// The role of a websocket session: the one resolved for the request, or else operator
/// when authentication is on and administrator when it is off.
pub fn ws_role(resolved: Option<Role>, auth_enabled: bool) -> (r: Role)
    ensures
        r == match resolved {
            Some(x) => x,
            None => if auth_enabled {
                Role::Operator
            } else {
                Role::Admin
            },
        },
{
    match resolved {
        Some(x) => x,
        None => if auth_enabled {
            Role::Operator
        } else {
            Role::Admin
        },
    }
}

/// What logging out does: with authentication off, nothing but success; otherwise the
/// caller's session (or none) is revoked and the session cookie is cleared (empty value,
/// no lifetime). Returns whether to revoke, and the cookie to set.
pub fn logout_answer(auth_enabled: bool, secure: bool) -> (r: (bool, Option<SessionCookie>))
    ensures
        !auth_enabled ==> !r.0 && r.1 is None,
        auth_enabled ==> r.0 && (r.1 matches Some(c) && c.value@.len() == 0 && c.max_age == Some(0i64)
            && c.secure == secure),
{
    if !auth_enabled {
        (false, None)
    } else {
        (true, Some(session_cookie(String::new(), secure, Some(0))))
    }
}

/// The secret that signs session tokens: the configured one; without one, a refusal when
/// authentication is on, and 32 random bytes when it is off.
pub fn auth_secret(configured: Option<Vec<u8>>, auth_enabled: bool) -> (r: Result<Vec<u8>, String>)
    ensures
        match configured {
            Some(s) => r == Ok::<Vec<u8>, String>(s),
            None => if auth_enabled {
                r matches Err(m) && m@
                    == "AUTH_ENABLED=true but no auth.secret provided; set AUTH_SECRET or auth.secret in settings."@
            } else {
                r matches Ok(s) && s@.len() == 32
            },
        },
{
    match configured {
        Some(s) => Ok(s),
        None => if auth_enabled {
            Err(
                "AUTH_ENABLED=true but no auth.secret provided; set AUTH_SECRET or auth.secret in settings.".to_owned(),
            )
        } else {
            Ok(crate::patoken::random_bytes(32))
        },
    }
}

/// The text form of the signing secret handed to the session store: its URL-safe
/// base64 text without padding.
pub fn session_secret(secret: &Vec<u8>) -> (s: String)
    ensures
        s@ == crate::patoken::b64url(secret@),
{
    crate::patoken::encode_b64url(secret.as_slice())
}

/// The routes of the views API: the collection ("/api/views"), one view
/// ("/api/views/{id}"), the entry point ("/api/views/entry-point"), and marking a view as
/// the entry point ("/api/views/{id}/entry-point").
#[derive(Clone, Copy, Debug, PartialEq, Eq, Structural)]
pub enum ViewsRoute {
    Collection,
    Item,
    EntryPoint,
    ItemEntryPoint,
}

/// The HTTP methods the views API routes.
#[derive(Clone, Copy, Debug, PartialEq, Eq, Structural)]
pub enum Method {
    Get,
    Post,
    Put,
    Delete,
    Other,
}

/// Who may call a route: any authenticated caller, or administrators only.
#[derive(Clone, Copy, Debug, PartialEq, Eq, Structural)]
pub enum Access {
    Authenticated,
    AdminOnly,
}

/// The access a views route needs for a method: reading needs authentication, changing
/// needs an administrator; `None` for a method the route does not serve.
pub open spec fn views_access_spec(route: ViewsRoute, method: Method) -> Option<Access> {
    match (route, method) {
        (ViewsRoute::Collection, Method::Get) => Some(Access::Authenticated),
        (ViewsRoute::Collection, Method::Post) => Some(Access::AdminOnly),
        (ViewsRoute::Item, Method::Get) => Some(Access::Authenticated),
        (ViewsRoute::Item, Method::Put) => Some(Access::AdminOnly),
        (ViewsRoute::Item, Method::Delete) => Some(Access::AdminOnly),
        (ViewsRoute::EntryPoint, Method::Get) => Some(Access::Authenticated),
        (ViewsRoute::ItemEntryPoint, Method::Put) => Some(Access::AdminOnly),
        _ => None,
    }
}

/// The access a views route needs for a method (see `views_access_spec`).
pub fn views_access(route: ViewsRoute, method: Method) -> (a: Option<Access>)
    ensures
        a == views_access_spec(route, method),
{
    match (route, method) {
        (ViewsRoute::Collection, Method::Get) => Some(Access::Authenticated),
        (ViewsRoute::Collection, Method::Post) => Some(Access::AdminOnly),
        (ViewsRoute::Item, Method::Get) => Some(Access::Authenticated),
        (ViewsRoute::Item, Method::Put) => Some(Access::AdminOnly),
        (ViewsRoute::Item, Method::Delete) => Some(Access::AdminOnly),
        (ViewsRoute::EntryPoint, Method::Get) => Some(Access::Authenticated),
        (ViewsRoute::ItemEntryPoint, Method::Put) => Some(Access::AdminOnly),
        _ => None,
    }
}

/// Whether a caller with `role` passes a route's access.
pub fn access_granted(access: Access, role: Role) -> (r: bool)
    ensures
        r == (access == Access::Authenticated || role == Role::Admin),
{
    match access {
        Access::Authenticated => true,
        Access::AdminOnly => admin_allowed(role),
    }
}

/// Only administrators change views: no route that changes the views table lets an
/// operator through.
pub proof fn law_operators_only_read_views(route: ViewsRoute, method: Method)
    requires
        method == Method::Post || method == Method::Put || method == Method::Delete,
    ensures
        views_access_spec(route, method) matches Some(a) ==> a == Access::AdminOnly,
{
}

} // verus!
