//! Login sessions: the keys under which a session and its owner's index entry are
//! stored, reading session ids back out of those keys, and the checks on a session's
//! tokens.
use vstd::prelude::*;

use crate::auth::Role;
use crate::parser::last_index_of;
use crate::patoken::first_index_of;
use crate::text::{chars_eq, chars_of, push_chars, string_of};

verus! {

/// A stored session: its signed access and refresh tokens and its user.
#[derive(Clone, Debug)]
pub struct Session {
    pub access_token: String,
    pub refresh_token: String,
    pub username: String,
}

/// The claims of a session token.
#[derive(Clone, Debug)]
pub struct TokenClaims {
    pub user: String,
    pub token_type: String,
    pub role: Role,
    pub exp: i64,
    pub issued_at: i64,
}

/// The key of the session with id `id`: "user_session:{id}".
pub open spec fn data_key(id: Seq<char>) -> Seq<char> {
    "user_session:"@ + id
}

/// The prefix of the index entries of `user`'s sessions: "user_session_access:{user}:".
pub open spec fn access_prefix(user: Seq<char>) -> Seq<char> {
    "user_session_access:"@ + user + seq![':']
}

/// The index entry of `user`'s session `id`: "user_session_access:{user}:{id}".
pub open spec fn access_key(user: Seq<char>, id: Seq<char>) -> Seq<char> {
    access_prefix(user) + id
}

/// The text after the last ':' of `s`, or all of `s` when it has none.
pub open spec fn after_last_colon(s: Seq<char>) -> Seq<char> {
    let k = last_index_of(s, ':');
    if k < 0 {
        s
    } else {
        s.skip(k + 1)
    }
}

/// The second ':'-separated field of `s`, if it has one.
pub open spec fn second_field(s: Seq<char>) -> Option<Seq<char>> {
    let k = first_index_of(s, ':');
    if k < 0 {
        None
    } else {
        let rest = s.skip(k + 1);
        let j = first_index_of(rest, ':');
        Some(
            if j < 0 {
                rest
            } else {
                rest.take(j)
            },
        )
    }
}

/// The key of session `id`.
pub fn session_data_key(id: &str) -> (k: String)
    ensures
        k@ == data_key(id@),
{
    let mut k = "user_session:".to_owned();
    let v = chars_of(id);
    push_chars(&mut k, v.as_slice());
    k
}

/// The prefix of `user`'s index entries.
pub fn session_access_prefix(user: &str) -> (k: String)
    ensures
        k@ == access_prefix(user@),
{
    let mut k = "user_session_access:".to_owned();
    let v = chars_of(user);
    push_chars(&mut k, v.as_slice());
    crate::text::string_push(&mut k, ':');
    k
}

/// The index entry of `user`'s session `id`.
pub fn session_access_key(user: &str, id: &str) -> (k: String)
    ensures
        k@ == access_key(user@, id@),
{
    let mut k = session_access_prefix(user);
    let v = chars_of(id);
    push_chars(&mut k, v.as_slice());
    k
}

proof fn lemma_last_index_of(s: Seq<char>, c: char)
    ensures
        -1 <= last_index_of(s, c) < s.len(),
        last_index_of(s, c) >= 0 ==> s[last_index_of(s, c)] == c,
        forall|j: int| last_index_of(s, c) < j < s.len() ==> s[j] != c,
    decreases s.len(),
{
    if s.len() > 0 && s.last() != c {
        lemma_last_index_of(s.drop_last(), c);
        assert forall|j: int| last_index_of(s, c) < j < s.len() implies s[j] != c by {
            if j < s.len() - 1 {
                assert(s[j] == s.drop_last()[j]);
            }
        }
    }
}

/// The session id in an index entry: its text after the last ':'.
pub fn session_id_of_access_key(key: &str) -> (id: String)
    ensures
        id@ == after_last_colon(key@),
{
    let v = chars_of(key);
    proof {
        lemma_last_index_of(v@, ':');
    }
    let mut k: usize = v.len();
    while k > 0 && v[k - 1] != ':'
        invariant
            k <= v.len(),
            forall|j: int| k <= j < v.len() ==> v@[j] != ':',
        decreases k,
    {
        k -= 1;
    }
    proof {
        let li = last_index_of(v@, ':');
        if k > 0 {
            assert(v@[k - 1] == ':');
            if li > k - 1 {
                assert(v@[li] == ':');
            }
            assert(li == k - 1);
        } else {
            if li >= 0 {
                assert(v@[li] == ':');
            }
        }
    }
    let mut out: Vec<char> = Vec::new();
    let mut i: usize = k;
    while i < v.len()
        invariant
            k <= i <= v.len(),
            out@ == v@.subrange(k as int, i as int),
        decreases v.len() - i,
    {
        out.push(v[i]);
        proof {
            assert(v@.subrange(k as int, i + 1) =~= v@.subrange(k as int, i as int).push(v@[i as int]));
        }
        i += 1;
    }
    proof {
        assert(v@.subrange(k as int, v@.len() as int) =~= v@.skip(k as int));
        if k == 0 {
            assert(v@.skip(0) =~= v@);
        }
    }
    string_of(out.as_slice())
}

fn first_colon_from(v: &Vec<char>, from: usize) -> (k: usize)
    requires
        from <= v.len(),
    ensures
        from <= k <= v.len(),
        forall|j: int| from <= j < k ==> v@[j] != ':',
        k < v.len() ==> v@[k as int] == ':',
{
    let mut k: usize = from;
    while k < v.len() && v[k] != ':'
        invariant
            from <= k <= v.len(),
            forall|j: int| from <= j < k ==> v@[j] != ':',
        decreases v.len() - k,
    {
        k += 1;
    }
    k
}

proof fn lemma_first_colon(s: Seq<char>, k: int)
    requires
        0 <= k <= s.len(),
        forall|j: int| 0 <= j < k ==> s[j] != ':',
        k < s.len() ==> s[k] == ':',
    ensures
        first_index_of(s, ':') == if k < s.len() {
            k
        } else {
            -1
        },
    decreases s.len(),
{
    if s.len() > 0 {
        if k > 0 {
            assert forall|j: int| 0 <= j < k - 1 implies s.drop_first()[j] != ':' by {
                assert(s.drop_first()[j] == s[j + 1]);
            }
            lemma_first_colon(s.drop_first(), k - 1);
        }
    }
}

/// The session id in a session key: the key's second ':'-separated field.
pub fn session_id_of_data_key(key: &str) -> (id: Option<String>)
    ensures
        match second_field(key@) {
            Some(f) => id matches Some(s) && s@ == f,
            None => id is None,
        },
{
    let v = chars_of(key);
    let k = first_colon_from(&v, 0);
    proof {
        lemma_first_colon(v@, k as int);
    }
    if k == v.len() {
        return None;
    }
    let j = first_colon_from(&v, k + 1);
    proof {
        let rest = v@.skip(k + 1);
        assert forall|i: int| 0 <= i < j - (k + 1) implies rest[i] != ':' by {
            assert(rest[i] == v@[i + k + 1]);
        }
        if j < v.len() {
            assert(rest[j - (k + 1)] == v@[j as int]);
        }
        lemma_first_colon(rest, j - (k + 1));
    }
    let mut out: Vec<char> = Vec::new();
    let mut i: usize = k + 1;
    while i < j
        invariant
            k + 1 <= i <= j <= v.len(),
            out@ == v@.subrange(k + 1, i as int),
        decreases j - i,
    {
        out.push(v[i]);
        proof {
            assert(v@.subrange(k + 1, i + 1) =~= v@.subrange(k + 1, i as int).push(v@[i as int]));
        }
        i += 1;
    }
    proof {
        let rest = v@.skip(k + 1);
        if j < v.len() {
            assert(rest.take(j - (k + 1)) =~= v@.subrange(k + 1, j as int));
        } else {
            assert(rest =~= v@.subrange(k + 1, j as int));
        }
    }
    Some(string_of(out.as_slice()))
}

/// An index entry reads back as the session id it was made with, when that id holds no
/// ':'.
pub proof fn law_access_key_roundtrip(user: Seq<char>, id: Seq<char>)
    requires
        forall|j: int| 0 <= j < id.len() ==> id[j] != ':',
    ensures
        after_last_colon(access_key(user, id)) == id,
{
    let s = access_key(user, id);
    let p = access_prefix(user);
    lemma_last_index_of(s, ':');
    assert(s[p.len() - 1] == ':');
    let k = last_index_of(s, ':');
    if k > p.len() - 1 {
        assert(s[k] == id[k - p.len()]);
    }
    assert(k == p.len() - 1);
    assert(s.skip(k + 1) =~= id);
}

/// A session key reads back as the session id it was made with, when that id holds no
/// ':'.
pub proof fn law_data_key_roundtrip(id: Seq<char>)
    requires
        forall|j: int| 0 <= j < id.len() ==> id[j] != ':',
    ensures
        second_field(data_key(id)) == Some(id),
{
    reveal_strlit("user_session:");
    let s = data_key(id);
    assert forall|j: int| 0 <= j < 12 implies s[j] != ':' by {}
    lemma_first_colon(s, 12);
    let rest = s.skip(13);
    assert(rest =~= id);
    lemma_first_colon(rest, rest.len() as int);
}

/// The entries of a user's sessions all start with that user's prefix.
pub proof fn law_access_key_under_prefix(user: Seq<char>, id: Seq<char>)
    ensures
        access_key(user, id).take(access_prefix(user).len() as int) == access_prefix(user),
{
    assert(access_key(user, id).take(access_prefix(user).len() as int) =~= access_prefix(user));
}

/// Whether decoded claims are of token type `kind`.
pub open spec fn claims_of_kind(decoded: Result<TokenClaims, String>, kind: Seq<char>) -> bool {
    decoded matches Ok(c) && c.token_type@ == kind
}

/// A session id verifies when its session was found and its access token decoded to
/// claims of type "access".
pub fn access_claims_valid(decoded: &Option<Result<TokenClaims, String>>) -> (r: bool)
    ensures
        r == (decoded matches Some(d) && claims_of_kind(*d, "access"@)),
{
    match decoded {
        Some(Ok(c)) => {
            let t = chars_of(c.token_type.as_str());
            let a = chars_of("access");
            chars_eq(t.as_slice(), a.as_slice())
        },
        _ => false,
    }
}

/// Whom a refreshed session is for: the user and role in the claims of the session's
/// refresh token. Refused with "Session not found or expired" when there is no session,
/// "Invalid refresh token: {e}" when the token does not decode, and "Invalid token type"
/// when it is not a refresh token.
pub fn refresh_target(decoded: &Option<Result<TokenClaims, String>>) -> (r: Result<(String, Role), String>)
    ensures
        match decoded {
            None => r matches Err(m) && m@ == "Session not found or expired"@,
            Some(Err(e)) => r matches Err(m) && m@ == "Invalid refresh token: "@ + e@,
            Some(Ok(c)) => if c.token_type@ == "refresh"@ {
                r matches Ok((u, role)) && u@ == c.user@ && role == c.role
            } else {
                r matches Err(m) && m@ == "Invalid token type"@
            },
        },
{
    match decoded {
        None => Err("Session not found or expired".to_owned()),
        Some(Err(e)) => {
            let mut m = "Invalid refresh token: ".to_owned();
            let v = chars_of(e.as_str());
            push_chars(&mut m, v.as_slice());
            Err(m)
        },
        Some(Ok(c)) => {
            let t = chars_of(c.token_type.as_str());
            let k = chars_of("refresh");
            if chars_eq(t.as_slice(), k.as_slice()) {
                Ok((c.user.clone(), c.role))
            } else {
                Err("Invalid token type".to_owned())
            }
        },
    }
}

/// Index entries of different sessions never collide: when session ids hold no ':', an
/// entry determines both its user and its session id.
pub proof fn law_access_keys_distinct(u1: Seq<char>, i1: Seq<char>, u2: Seq<char>, i2: Seq<char>)
    requires
        forall|j: int| 0 <= j < i1.len() ==> i1[j] != ':',
        forall|j: int| 0 <= j < i2.len() ==> i2[j] != ':',
        access_key(u1, i1) == access_key(u2, i2),
    ensures
        u1 == u2,
        i1 == i2,
{
    law_access_key_roundtrip(u1, i1);
    law_access_key_roundtrip(u2, i2);
    let k = access_key(u1, i1);
    let p1 = access_prefix(u1);
    let p2 = access_prefix(u2);
    assert(p1.len() == p2.len());
    assert(k.take(p1.len() as int) =~= p1);
    assert(k.take(p2.len() as int) =~= p2);
    reveal_strlit("user_session_access:");
    let n = "user_session_access:"@.len();
    assert(u1 =~= p1.subrange(n as int, p1.len() - 1));
    assert(u2 =~= p2.subrange(n as int, p2.len() - 1));
}

/// The keys revoking session `session_id` of `username` removes: with `full`, the key and
/// index entry of every session of the user (`user_sessions`, as listed under the user's
/// prefix); otherwise those of the one session.
pub fn revoke_keys(username: &str, session_id: &str, full: bool, user_sessions: &Vec<String>) -> (keys: Vec<String>)
    ensures
        keys@.map_values(|k: String| k@) == revoked_keys(
            username@,
            session_id@,
            full,
            user_sessions@.map_values(|id: String| id@),
        ),
        !full ==> keys@.len() == 2 && keys@[0]@ == data_key(session_id@) && keys@[1]@ == access_key(
            username@,
            session_id@,
        ),
        full ==> keys@.len() == 2 * user_sessions@.len() && forall|j: int|
            0 <= j < user_sessions@.len() ==> keys@[2 * j]@ == data_key(
                (#[trigger] user_sessions@[j])@,
            ) && keys@[2 * j + 1]@ == access_key(username@, user_sessions@[j]@),
{
    let mut keys: Vec<String> = Vec::new();
    if !full {
        keys.push(session_data_key(session_id));
        keys.push(session_access_key(username, session_id));
        return keys;
    }
    let mut j: usize = 0;
    while j < user_sessions.len()
        invariant
            j <= user_sessions@.len(),
            keys@.len() == 2 * j,
            forall|k: int|
                0 <= k < j ==> keys@[2 * k]@ == data_key((#[trigger] user_sessions@[k])@)
                    && keys@[2 * k + 1]@ == access_key(username@, user_sessions@[k]@),
        decreases user_sessions.len() - j,
    {
        keys.push(session_data_key(user_sessions[j].as_str()));
        keys.push(session_access_key(username, user_sessions[j].as_str()));
        j += 1;
    }
    proof {
        let listed = user_sessions@.map_values(|id: String| id@);
        let want = revoked_keys(username@, session_id@, full, listed);
        let got = keys@.map_values(|k: String| k@);
        assert forall|k: int| 0 <= k < got.len() implies got[k] == want[k] by {
            let i = k / 2;
            assert(k == 2 * i || k == 2 * i + 1);
            assert(listed[i] == user_sessions@[i]@);
        }
        assert(got =~= want);
    }
    keys
}

/// The keys that revoking removes, in order: with `full`, the key and index entry of
/// each listed session of `user`; otherwise those of session `sid`.
pub open spec fn revoked_keys(user: Seq<char>, sid: Seq<char>, full: bool, listed: Seq<Seq<char>>) -> Seq<Seq<char>> {
    if full {
        Seq::new(
            (2 * listed.len()) as nat,
            |k: int|
                if k % 2 == 0 {
                    data_key(listed[k / 2])
                } else {
                    access_key(user, listed[k / 2])
                },
        )
    } else {
        seq![data_key(sid), access_key(user, sid)]
    }
}

/// The stored keys `present` once `keys` are removed.
pub open spec fn without_keys(present: Set<Seq<char>>, keys: Seq<Seq<char>>) -> Set<Seq<char>> {
    Set::new(|k: Seq<char>| present.contains(k) && !keys.contains(k))
}

/// Whether `s` holds no ':'.
pub open spec fn colon_free(s: Seq<char>) -> bool {
    forall|j: int| 0 <= j < s.len() ==> s[j] != ':'
}

/// A session key and an index entry are never the same key.
proof fn lemma_data_key_not_access_key(i: Seq<char>, u: Seq<char>, i2: Seq<char>)
    ensures
        data_key(i) != access_key(u, i2),
{
    reveal_strlit("user_session:");
    reveal_strlit("user_session_access:");
    assert(data_key(i)[12] == ':');
    assert(access_key(u, i2)[12] == '_');
}

/// Revoking all sessions of a user clears the user and no one else: afterwards no index
/// entry of the user and no key of a listed session is left, while other users' index
/// entries and the keys of sessions that were not listed stay. The listing is the one
/// made under the user's prefix, so it names each of the user's sessions.
pub proof fn law_full_revoke_clears_only_the_user(
    present: Set<Seq<char>>,
    user: Seq<char>,
    sid: Seq<char>,
    listed: Seq<Seq<char>>,
)
    requires
        forall|id: Seq<char>| colon_free(id) && present.contains(#[trigger] access_key(user, id)) ==> listed.contains(id),
        forall|j: int| 0 <= j < listed.len() ==> colon_free(#[trigger] listed[j]),
    ensures
        forall|id: Seq<char>| colon_free(id) ==> !without_keys(present, revoked_keys(user, sid, true, listed)).contains(
            #[trigger] access_key(user, id),
        ),
        forall|j: int| 0 <= j < listed.len() ==> !without_keys(present, revoked_keys(user, sid, true, listed)).contains(
            data_key(#[trigger] listed[j]),
        ),
        forall|u2: Seq<char>, i2: Seq<char>| u2 != user && colon_free(i2) && present.contains(
            #[trigger] access_key(u2, i2),
        ) ==> without_keys(present, revoked_keys(user, sid, true, listed)).contains(access_key(u2, i2)),
        forall|i2: Seq<char>| present.contains(#[trigger] data_key(i2)) && !listed.contains(i2) ==> without_keys(
            present,
            revoked_keys(user, sid, true, listed),
        ).contains(data_key(i2)),
{
    let keys = revoked_keys(user, sid, true, listed);
    let after = without_keys(present, keys);
    assert forall|id: Seq<char>| colon_free(id) implies !after.contains(#[trigger] access_key(user, id)) by {
        if present.contains(access_key(user, id)) {
            let j = choose|j: int| 0 <= j < listed.len() && listed[j] == id;
            assert(keys[2 * j + 1] == access_key(user, id));
        }
    }
    assert forall|j: int| 0 <= j < listed.len() implies !after.contains(data_key(#[trigger] listed[j])) by {
        assert(keys[2 * j] == data_key(listed[j]));
    }
    assert forall|u2: Seq<char>, i2: Seq<char>|
        u2 != user && colon_free(i2) && present.contains(#[trigger] access_key(u2, i2)) implies after.contains(
        access_key(u2, i2),
    ) by {
        if keys.contains(access_key(u2, i2)) {
            let k = choose|k: int| 0 <= k < keys.len() && keys[k] == access_key(u2, i2);
            let i = k / 2;
            if k % 2 == 0 {
                lemma_data_key_not_access_key(listed[i], u2, i2);
            } else {
                law_access_keys_distinct(user, listed[i], u2, i2);
            }
        }
    }
    assert forall|i2: Seq<char>| present.contains(#[trigger] data_key(i2)) && !listed.contains(i2) implies after.contains(
        data_key(i2),
    ) by {
        if keys.contains(data_key(i2)) {
            let k = choose|k: int| 0 <= k < keys.len() && keys[k] == data_key(i2);
            let i = k / 2;
            if k % 2 == 0 {
                let p = "user_session:"@;
                assert(listed[i] =~= data_key(listed[i]).skip(p.len() as int));
                assert(i2 =~= data_key(i2).skip(p.len() as int));
            } else {
                lemma_data_key_not_access_key(i2, user, listed[i]);
            }
        }
    }
}


/// Revoking one session removes its key and index entry and nothing else: the user's
/// other sessions and everyone else's stay.
pub proof fn law_revoke_removes_only_that_session(present: Set<Seq<char>>, user: Seq<char>, sid: Seq<char>)
    requires
        colon_free(sid),
    ensures
        !without_keys(present, revoked_keys(user, sid, false, Seq::empty())).contains(data_key(sid)),
        !without_keys(present, revoked_keys(user, sid, false, Seq::empty())).contains(access_key(user, sid)),
        forall|u2: Seq<char>, i2: Seq<char>| colon_free(i2) && i2 != sid && present.contains(
            #[trigger] access_key(u2, i2),
        ) ==> without_keys(present, revoked_keys(user, sid, false, Seq::empty())).contains(access_key(u2, i2)),
        forall|i2: Seq<char>| i2 != sid && present.contains(#[trigger] data_key(i2)) ==> without_keys(
            present,
            revoked_keys(user, sid, false, Seq::empty()),
        ).contains(data_key(i2)),
{
    let keys = revoked_keys(user, sid, false, Seq::empty());
    assert(keys[0] == data_key(sid));
    assert(keys[1] == access_key(user, sid));
    assert forall|u2: Seq<char>, i2: Seq<char>|
        colon_free(i2) && i2 != sid && present.contains(#[trigger] access_key(u2, i2)) implies without_keys(
        present,
        keys,
    ).contains(access_key(u2, i2)) by {
        lemma_data_key_not_access_key(sid, u2, i2);
        if access_key(user, sid) == access_key(u2, i2) {
            law_access_keys_distinct(user, sid, u2, i2);
        }
        assert(!keys.contains(access_key(u2, i2))) by {
            if keys.contains(access_key(u2, i2)) {
                let k = choose|k: int| 0 <= k < keys.len() && keys[k] == access_key(u2, i2);
                assert(k == 0 || k == 1);
            }
        }
    }
    assert forall|i2: Seq<char>| i2 != sid && present.contains(#[trigger] data_key(i2)) implies without_keys(
        present,
        keys,
    ).contains(data_key(i2)) by {
        lemma_data_key_not_access_key(i2, user, sid);
        let p = "user_session:"@;
        assert(sid =~= data_key(sid).skip(p.len() as int));
        assert(i2 =~= data_key(i2).skip(p.len() as int));
        assert(!keys.contains(data_key(i2))) by {
            if keys.contains(data_key(i2)) {
                let k = choose|k: int| 0 <= k < keys.len() && keys[k] == data_key(i2);
                assert(k == 0 || k == 1);
            }
        }
    }
}

} // verus!
