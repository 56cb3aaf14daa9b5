//! Signed session tokens: the claims a token carries, signing them with HS256, and
//! reading them back out of a token.
use vstd::prelude::*;

use jsonwebtoken::errors::ErrorKind;
use jsonwebtoken::{Algorithm, DecodingKey, EncodingKey, Header, Validation};
use serde_json::Value;

use crate::auth::Role;
use crate::fresh::current_ms;
use crate::sessions::{Session, TokenClaims};
use crate::text::{chars_eq, chars_of, push_chars};

verus! {

/// Why a token was not read: its expiry time has passed, or any other reason; each with
/// the decoder's description.
#[derive(Clone, Debug)]
pub enum DecodeFailure {
    Expired(String),
    Other(String),
}

/// A member of a token's payload as read: its name, its text when it is a string, and,
/// when it is a number, that number when it is whole and fits an `i64`.
pub type PayloadMember = (String, Option<String>, Option<Option<i64>>);

/// The character sequences of the members of a payload.
pub open spec fn payload_view(v: Seq<PayloadMember>) -> Seq<(Seq<char>, Option<Seq<char>>, Option<Option<i64>>)> {
    v.map_values(
        |m: PayloadMember|
            (
                m.0@,
                match m.1 {
                    Some(s) => Some(s@),
                    None => None,
                },
                m.2,
            ),
    )
}

/// The HS256-signed token that `jsonwebtoken::encode` makes of the claims object
/// {"user", "type", "role", "exp", "issued_at"} with key `secret`.
pub uninterp spec fn hs256_token(user: Seq<char>, kind: Seq<char>, role: Seq<char>, exp: i64, issued_at: i64, secret: Seq<u8>) -> Seq<char>;

/// The members of the payload of `token`, in order, when its header names HS256, its
/// HS256 signature checks with key `secret` and its payload is a JSON object; the expiry
/// time is not looked at.
pub uninterp spec fn hs256_payload(token: Seq<char>, secret: Seq<u8>) -> Option<Seq<(Seq<char>, Option<Seq<char>>, Option<Option<i64>>)>>;

/// The payload members of the claims of a session token, in the order they are written.
pub open spec fn claim_members(user: Seq<char>, kind: Seq<char>, role: Seq<char>, exp: i64, issued_at: i64) -> Seq<
    (Seq<char>, Option<Seq<char>>, Option<Option<i64>>),
> {
    seq![
        ("user"@, Some(user), None),
        ("type"@, Some(kind), None),
        ("role"@, Some(role), None),
        ("exp"@, None, Some(Some(exp))),
        ("issued_at"@, None, Some(Some(issued_at))),
    ]
}

/// Calls `jsonwebtoken::encode` with an HS256 header, the key `secret`, and the claims
/// object whose members are, in this order, "user", "type" and "role" (strings) and
/// "exp" and "issued_at" (integers). It succeeds: an HMAC key matches the HS256 header,
/// the header and a map of strings and integers always serialize, and HMAC signing does
/// not fail. The token is a function of these values (`hs256_token`). Decoding it with
/// the same key finds the same members in the same order (`hs256_payload`): serde_json
/// reads back the strings and whole numbers it wrote, and keeps the order of an object's
/// members.
#[verifier::external_body]
fn sign_claims(user: &str, kind: &str, role: &str, exp: i64, issued_at: i64, secret: &[u8]) -> (r: Result<String, String>)
    ensures
        r is Ok,
        r matches Ok(t) ==> t@ == hs256_token(user@, kind@, role@, exp, issued_at, secret@) && hs256_payload(t@, secret@)
            == Some(claim_members(user@, kind@, role@, exp, issued_at)),
{
    let mut claims = serde_json::Map::new();
    claims.insert("user".to_string(), Value::from(user));
    claims.insert("type".to_string(), Value::from(kind));
    claims.insert("role".to_string(), Value::from(role));
    claims.insert("exp".to_string(), Value::from(exp));
    claims.insert("issued_at".to_string(), Value::from(issued_at));
    jsonwebtoken::encode(&Header::new(Algorithm::HS256), &claims, &EncodingKey::from_secret(secret))
        .map_err(|e| e.to_string())
}

/// Calls `jsonwebtoken::decode` for a JSON object payload with HS256 and key `secret`,
/// and hands out each member as its name and, for a string or a number, its text or
/// `as_i64`. Whether it succeeds depends on the clock (an expired token is refused), so
/// only this is stated: a payload handed out is the one `hs256_payload` names, and a
/// token of which `hs256_payload` names none is refused.
#[verifier::external_body]
fn decode_payload(token: &str, secret: &[u8]) -> (r: Result<Vec<PayloadMember>, DecodeFailure>)
    ensures
        r matches Ok(m) ==> hs256_payload(token@, secret@) == Some(payload_view(m@)),
        hs256_payload(token@, secret@) is None ==> r is Err,
{
    let key = DecodingKey::from_secret(secret);
    match jsonwebtoken::decode::<serde_json::Map<String, Value>>(token, &key, &Validation::new(Algorithm::HS256)) {
        Ok(data) => Ok(data.claims.into_iter().map(|(k, v)| match v {
            Value::String(s) => (k, Some(s), None),
            Value::Number(n) => (k, None, Some(n.as_i64())),
            _ => (k, None, None),
        }).collect()),
        Err(e) => match e.kind() {
            ErrorKind::ExpiredSignature => Err(DecodeFailure::Expired(e.to_string())),
            _ => Err(DecodeFailure::Other(e.to_string())),
        },
    }
}

/// The text of a role in a token.
pub open spec fn role_name(r: Role) -> Seq<char> {
    match r {
        Role::Admin => "admin"@,
        Role::Operator => "operator"@,
    }
}

/// The role a token's text names, if any.
pub open spec fn role_of_name(s: Seq<char>) -> Option<Role> {
    if s == "admin"@ {
        Some(Role::Admin)
    } else if s == "operator"@ {
        Some(Role::Operator)
    } else {
        None
    }
}

/// The text of `r` in a token: "admin" or "operator".
pub fn role_text(r: Role) -> (s: String)
    ensures
        s@ == role_name(r),
{
    match r {
        Role::Admin => "admin".to_owned(),
        Role::Operator => "operator".to_owned(),
    }
}

/// The first member of `p` named `key`: its text and number parts.
pub open spec fn member_named(p: Seq<(Seq<char>, Option<Seq<char>>, Option<Option<i64>>)>, key: Seq<char>) -> Option<
    (Option<Seq<char>>, Option<Option<i64>>),
>
    decreases p.len(),
{
    if p.len() == 0 {
        None
    } else if p[0].0 == key {
        Some((p[0].1, p[0].2))
    } else {
        member_named(p.drop_first(), key)
    }
}

/// The message for a missing member `key`.
pub open spec fn missing_message(key: Seq<char>) -> Seq<char> {
    "missing field `"@ + key + "`"@
}

/// The message for a member `key` of the wrong kind.
pub open spec fn invalid_message(key: Seq<char>) -> Seq<char> {
    "invalid type for field `"@ + key + "`"@
}

/// The string member `key` of `p`, or why it cannot be read.
pub open spec fn text_member(p: Seq<(Seq<char>, Option<Seq<char>>, Option<Option<i64>>)>, key: Seq<char>) -> Result<Seq<char>, Seq<char>> {
    match member_named(p, key) {
        None => Err(missing_message(key)),
        Some((Some(s), _)) => Ok(s),
        Some(_) => Err(invalid_message(key)),
    }
}

/// The integer member `key` of `p`, or why it cannot be read.
pub open spec fn int_member(p: Seq<(Seq<char>, Option<Seq<char>>, Option<Option<i64>>)>, key: Seq<char>) -> Result<i64, Seq<char>> {
    match member_named(p, key) {
        None => Err(missing_message(key)),
        Some((_, Some(Some(n)))) => Ok(n),
        Some(_) => Err(invalid_message(key)),
    }
}

/// The claims a payload holds (user, type, role, exp, issued_at), or the first reason,
/// in that order of members, why they cannot be read. Other members are ignored.
pub open spec fn claims_of_payload(p: Seq<(Seq<char>, Option<Seq<char>>, Option<Option<i64>>)>) -> Result<
    (Seq<char>, Seq<char>, Role, i64, i64),
    Seq<char>,
> {
    match text_member(p, "user"@) {
        Err(m) => Err(m),
        Ok(user) => match text_member(p, "type"@) {
            Err(m) => Err(m),
            Ok(kind) => match text_member(p, "role"@) {
                Err(m) => Err(m),
                Ok(role) => match role_of_name(role) {
                    None => Err("unknown variant `"@ + role + "`, expected `admin` or `operator`"@),
                    Some(r) => match int_member(p, "exp"@) {
                        Err(m) => Err(m),
                        Ok(exp) => match int_member(p, "issued_at"@) {
                            Err(m) => Err(m),
                            Ok(issued) => Ok((user, kind, r, exp, issued)),
                        },
                    },
                },
            },
        },
    }
}

/// Whether `c` holds the claims `t`.
pub open spec fn claims_are(c: TokenClaims, t: (Seq<char>, Seq<char>, Role, i64, i64)) -> bool {
    &&& c.user@ == t.0
    &&& c.token_type@ == t.1
    &&& c.role == t.2
    &&& c.exp == t.3
    &&& c.issued_at == t.4
}

fn find_member(p: &Vec<PayloadMember>, key: &str) -> (r: Option<usize>)
    ensures
        match r {
            Some(i) => i < p@.len() && member_named(payload_view(p@), key@) == Some(
                (payload_view(p@)[i as int].1, payload_view(p@)[i as int].2),
            ),
            None => member_named(payload_view(p@), key@) is None,
        },
{
    let k = chars_of(key);
    let ghost v = payload_view(p@);
    let mut i: usize = 0;
    assert(v.skip(0) =~= v);
    while i < p.len()
        invariant
            i <= p@.len(),
            k@ == key@,
            v == payload_view(p@),
            member_named(v, key@) == member_named(v.skip(i as int), key@),
        decreases p.len() - i,
    {
        let name = chars_of(p[i].0.as_str());
        assert(v.skip(i as int)[0] == v[i as int]);
        assert(v.skip(i as int).drop_first() =~= v.skip(i as int + 1));
        if chars_eq(name.as_slice(), k.as_slice()) {
            return Some(i);
        }
        i += 1;
    }
    None
}

fn field_message(prefix: &str, key: &str) -> (s: String)
    ensures
        s@ == prefix@ + key@ + "`"@,
{
    let mut s = prefix.to_owned();
    let k = chars_of(key);
    push_chars(&mut s, k.as_slice());
    let tick = chars_of("`");
    push_chars(&mut s, tick.as_slice());
    s
}

fn read_text(p: &Vec<PayloadMember>, key: &str) -> (r: Result<String, String>)
    ensures
        match text_member(payload_view(p@), key@) {
            Ok(s) => r matches Ok(x) && x@ == s,
            Err(m) => r matches Err(x) && x@ == m,
        },
{
    proof {
        reveal_strlit("missing field `");
        reveal_strlit("invalid type for field `");
    }
    match find_member(p, key) {
        None => Err(field_message("missing field `", key)),
        Some(i) => match &p[i].1 {
            Some(s) => Ok(s.clone()),
            None => Err(field_message("invalid type for field `", key)),
        },
    }
}

fn read_int(p: &Vec<PayloadMember>, key: &str) -> (r: Result<i64, String>)
    ensures
        match int_member(payload_view(p@), key@) {
            Ok(n) => r == Ok::<i64, String>(n),
            Err(m) => r matches Err(x) && x@ == m,
        },
{
    match find_member(p, key) {
        None => Err(field_message("missing field `", key)),
        Some(i) => match p[i].2 {
            Some(Some(n)) => Ok(n),
            _ => Err(field_message("invalid type for field `", key)),
        },
    }
}

/// The claims held by the payload `p` (see `claims_of_payload`).
pub fn claims_from_payload(p: &Vec<PayloadMember>) -> (r: Result<TokenClaims, String>)
    ensures
        match claims_of_payload(payload_view(p@)) {
            Ok(t) => r matches Ok(c) && claims_are(c, t),
            Err(m) => r matches Err(x) && x@ == m,
        },
{
    let user = read_text(p, "user")?;
    let kind = read_text(p, "type")?;
    let role_name_text = read_text(p, "role")?;
    let rc = chars_of(role_name_text.as_str());
    let admin = chars_of("admin");
    let operator = chars_of("operator");
    let role = if chars_eq(rc.as_slice(), admin.as_slice()) {
        Role::Admin
    } else if chars_eq(rc.as_slice(), operator.as_slice()) {
        Role::Operator
    } else {
        let mut m = "unknown variant `".to_owned();
        push_chars(&mut m, rc.as_slice());
        let tail = chars_of("`, expected `admin` or `operator`");
        push_chars(&mut m, tail.as_slice());
        return Err(m);
    };
    let exp = read_int(p, "exp")?;
    let issued_at = read_int(p, "issued_at")?;
    Ok(TokenClaims { user, token_type: kind, role, exp, issued_at })
}

/// The claims of `token`, checked with HS256 and key `secret`. The decoder decides, by
/// the clock among other things, whether the token is accepted; claims that come back
/// are those its payload holds (`claims_of_payload`), and a payload that holds none is
/// refused with the reason as an `Other` failure.
pub fn decode_token_claims(token: &str, secret: &[u8]) -> (r: Result<TokenClaims, DecodeFailure>)
    ensures
        r matches Ok(c) ==> hs256_payload(token@, secret@) matches Some(p) && claims_of_payload(p) matches Ok(t)
            && claims_are(c, t),
        hs256_payload(token@, secret@) is None ==> r is Err,
        (hs256_payload(token@, secret@) matches Some(p) && claims_of_payload(p) is Err) ==> r is Err,
{
    match decode_payload(token, secret) {
        Err(e) => Err(e),
        Ok(p) => match claims_from_payload(&p) {
            Ok(c) => Ok(c),
            Err(m) => Err(DecodeFailure::Other(m)),
        },
    }
}

/// Whether a failure is the token's expiry.
pub fn is_expired_error(e: &DecodeFailure) -> (r: bool)
    ensures
        r == (e is Expired),
{
    match e {
        DecodeFailure::Expired(_) => true,
        DecodeFailure::Other(_) => false,
    }
}

impl DecodeFailure {
    /// The decoder's description of the failure.
    pub fn text(&self) -> (s: String)
        ensures
            s == match self {
                DecodeFailure::Expired(m) => *m,
                DecodeFailure::Other(m) => *m,
            },
    {
        match self {
            DecodeFailure::Expired(m) => m.clone(),
            DecodeFailure::Other(m) => m.clone(),
        }
    }
}

/// A token made for some claims reads back as exactly those claims: the payload of
/// claims written for a session token holds those claims.
pub proof fn law_token_claims_read_back(user: Seq<char>, kind: Seq<char>, role: Role, exp: i64, issued_at: i64)
    ensures
        claims_of_payload(claim_members(user, kind, role_name(role), exp, issued_at)) == Ok::<
            (Seq<char>, Seq<char>, Role, i64, i64),
            Seq<char>,
        >((user, kind, role, exp, issued_at)),
{
    let p = claim_members(user, kind, role_name(role), exp, issued_at);
    reveal_strlit("user");
    reveal_strlit("type");
    reveal_strlit("role");
    reveal_strlit("exp");
    reveal_strlit("issued_at");
    reveal_strlit("admin");
    reveal_strlit("operator");
    reveal_with_fuel(member_named, 6);
    assert(p.drop_first()[0] == p[1]);
    assert(p.drop_first().drop_first()[0] == p[2]);
    assert(p.drop_first().drop_first().drop_first()[0] == p[3]);
    assert(p.drop_first().drop_first().drop_first().drop_first()[0] == p[4]);
    assert("user"@[0] == 'u' && "type"@[0] == 't' && "role"@[0] == 'r');
    assert("exp"@.len() == 3 && "issued_at"@.len() == 9 && "user"@.len() == 4);
    assert("type"@.len() == 4 && "role"@.len() == 4);
    assert("admin"@.len() == 5 && "operator"@.len() == 8);
}

fn encode_failure(kind: &str, e: String) -> (s: String)
    ensures
        s@ == "Failed to encode "@ + kind@ + " token: "@ + e@,
{
    let mut s = "Failed to encode ".to_owned();
    let k = chars_of(kind);
    push_chars(&mut s, k.as_slice());
    let mid = chars_of(" token: ");
    push_chars(&mut s, mid.as_slice());
    let ev = chars_of(e.as_str());
    push_chars(&mut s, ev.as_slice());
    s
}

/// Whether `s` is the session of `username` with role `role`, made at `now` (seconds)
/// and `issued_ms` (milliseconds): an access and a refresh token signed with their keys,
/// expiring `access_ttl` and `refresh_ttl` seconds after `now`.
pub open spec fn is_new_session(
    s: Session,
    username: Seq<char>,
    role: Role,
    now: i64,
    issued_ms: i64,
    access_ttl: u64,
    refresh_ttl: u64,
    access_secret: Seq<u8>,
    refresh_secret: Seq<u8>,
) -> bool {
    let access_exp = (now + access_ttl) as i64;
    let refresh_exp = (now + refresh_ttl) as i64;
    &&& s.username@ == username
    &&& s.access_token@ == hs256_token(username, "access"@, role_name(role), access_exp, issued_ms, access_secret)
    &&& s.refresh_token@ == hs256_token(username, "refresh"@, role_name(role), refresh_exp, issued_ms, refresh_secret)
    &&& hs256_payload(s.access_token@, access_secret) == Some(
        claim_members(username, "access"@, role_name(role), access_exp, issued_ms),
    )
    &&& hs256_payload(s.refresh_token@, refresh_secret) == Some(
        claim_members(username, "refresh"@, role_name(role), refresh_exp, issued_ms),
    )
}

/// The session of `username` with role `role` made at `now` (see `is_new_session`).
pub fn new_session(
    username: &str,
    role: Role,
    now: i64,
    issued_ms: i64,
    access_ttl: u64,
    refresh_ttl: u64,
    access_secret: &[u8],
    refresh_secret: &[u8],
) -> (r: Result<Session, String>)
    requires
        access_ttl <= i64::MAX,
        refresh_ttl <= i64::MAX,
        now + access_ttl <= i64::MAX,
        now + refresh_ttl <= i64::MAX,
    ensures
        r matches Ok(s) && is_new_session(
            s,
            username@,
            role,
            now,
            issued_ms,
            access_ttl,
            refresh_ttl,
            access_secret@,
            refresh_secret@,
        ),
{
    let role_name_text = role_text(role);
    let access_exp = now + access_ttl as i64;
    let refresh_exp = now + refresh_ttl as i64;
    let access_token = match sign_claims(username, "access", role_name_text.as_str(), access_exp, issued_ms, access_secret) {
        Ok(t) => t,
        Err(e) => {
            return Err(encode_failure("access", e));
        },
    };
    let refresh_token = match sign_claims(username, "refresh", role_name_text.as_str(), refresh_exp, issued_ms, refresh_secret) {
        Ok(t) => t,
        Err(e) => {
            return Err(encode_failure("refresh", e));
        },
    };
    Ok(Session { access_token, refresh_token, username: username.to_string() })
}

impl Session {
    /// A new session of `username` with role `role`, made now: the clock is read once,
    /// in milliseconds, and the tokens expire `access_ttl_secs` and `refresh_ttl_secs`
    /// seconds after its whole seconds (see `new_session`).
    pub fn new(
        username: &str,
        access_secret: &[u8],
        refresh_secret: &[u8],
        access_ttl_secs: u64,
        refresh_ttl_secs: u64,
        role: Role,
    ) -> (r: Result<Session, String>)
        requires
            access_ttl_secs <= i64::MAX / 1000,
            refresh_ttl_secs <= i64::MAX / 1000,
        ensures
            r matches Ok(s) && exists|ms: i64|
                ms >= 0 && #[trigger] is_new_session(
                    s,
                    username@,
                    role,
                    (ms / 1000) as i64,
                    ms,
                    access_ttl_secs,
                    refresh_ttl_secs,
                    access_secret@,
                    refresh_secret@,
                ),
    {
        let ms = current_ms();
        let now = ms / 1000;
        new_session(
            username,
            role,
            now,
            ms,
            access_ttl_secs,
            refresh_ttl_secs,
            access_secret,
            refresh_secret,
        )
    }
}


/// The tokens of a new session read back as the claims they were made with: whenever
/// decoding its access or refresh token succeeds (see `decode_token_claims`), the claims
/// are the session's user, the token's type, the role, the expiry and the issue time.
pub proof fn law_session_tokens_read_back(
    s: Session,
    username: Seq<char>,
    role: Role,
    now: i64,
    issued_ms: i64,
    access_ttl: u64,
    refresh_ttl: u64,
    access_secret: Seq<u8>,
    refresh_secret: Seq<u8>,
    c: TokenClaims,
    refresh: bool,
)
    requires
        is_new_session(s, username, role, now, issued_ms, access_ttl, refresh_ttl, access_secret, refresh_secret),
        hs256_payload(
            if refresh { s.refresh_token@ } else { s.access_token@ },
            if refresh { refresh_secret } else { access_secret },
        ) matches Some(p) && claims_of_payload(p) matches Ok(t) && claims_are(c, t),
    ensures
        c.user@ == username,
        c.token_type@ == (if refresh { "refresh"@ } else { "access"@ }),
        c.role == role,
        c.exp == (if refresh { (now + refresh_ttl) as i64 } else { (now + access_ttl) as i64 }),
        c.issued_at == issued_ms,
{
    if refresh {
        law_token_claims_read_back(username, "refresh"@, role, (now + refresh_ttl) as i64, issued_ms);
    } else {
        law_token_claims_read_back(username, "access"@, role, (now + access_ttl) as i64, issued_ms);
    }
}

} // verus!
