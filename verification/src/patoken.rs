//! Personal access tokens: "pat_{id}.{secret}", where only an Argon2 hash of the secret
//! is stored with the token's record.
use base64::Engine;
use rand::RngCore;
use vstd::prelude::*;

use crate::auth::Role;
use crate::fresh::{current_ts, is_v4_text, random_uuid};
use crate::passwords::{argon2_hash_parses, argon2_verifies, check_secret, hash_secret};
use crate::text::{chars_of, has_prefix, push_chars, starts_with, string_of};

verus! {

/// The stored record of a token.
#[derive(Clone, Debug)]
pub struct PatRecord {
    pub id: String,
    pub name: String,
    pub user: String,
    pub role: Role,
    pub token_hash: String,
    pub expires_at: i64,
}

/// Why a token was refused or could not be made.
#[derive(Clone, Copy, Debug, PartialEq, Eq, Structural)]
pub enum PatError {
    InvalidFormat,
    NotFound,
    Expired,
    InvalidHash,
    InvalidSecret,
    HashFailed,
}

/// The text of the token with id `id` and secret `secret`.
pub open spec fn pat_text(id: Seq<char>, secret: Seq<char>) -> Seq<char> {
    "pat_"@ + id + seq!['.'] + secret
}

/// Index of the first occurrence of `c` in `s`, or -1.
pub open spec fn first_index_of(s: Seq<char>, c: char) -> int
    decreases s.len(),
{
    if s.len() == 0 {
        -1
    } else if s[0] == c {
        0
    } else {
        let k = first_index_of(s.drop_first(), c);
        if k < 0 {
            -1
        } else {
            k + 1
        }
    }
}

proof fn lemma_first_index_of(s: Seq<char>, c: char)
    ensures
        -1 <= first_index_of(s, c) < s.len(),
        first_index_of(s, c) >= 0 ==> s[first_index_of(s, c)] == c,
        forall|j: int| 0 <= j < s.len() && (first_index_of(s, c) < 0 || j < first_index_of(s, c)) ==> s[j] != c,
    decreases s.len(),
{
    if s.len() > 0 && s[0] != c {
        lemma_first_index_of(s.drop_first(), c);
        assert forall|j: int| 0 <= j < s.len() && (first_index_of(s, c) < 0 || j < first_index_of(s, c)) implies s[j] != c by {
            if j > 0 {
                assert(s[j] == s.drop_first()[j - 1]);
            }
        }
    }
}

proof fn lemma_first_index_of_absent_then(a: Seq<char>, b: Seq<char>, c: char)
    requires
        forall|j: int| 0 <= j < a.len() ==> a[j] != c,
    ensures
        first_index_of(a + seq![c] + b, c) == a.len(),
    decreases a.len(),
{
    if a.len() == 0 {
        assert((a + seq![c] + b)[0] == c);
    } else {
        assert((a + seq![c] + b).drop_first() =~= a.drop_first() + seq![c] + b);
        lemma_first_index_of_absent_then(a.drop_first(), b, c);
    }
}

/// What reading a token text gives: its id and secret when it is "pat_" then a non-empty
/// id, '.', and a non-empty secret (the id ending at the first '.').
pub open spec fn parse_pat_spec(token: Seq<char>) -> Option<(Seq<char>, Seq<char>)> {
    if !has_prefix(token, "pat_"@) {
        None
    } else {
        let rest = token.skip(4);
        let k = first_index_of(rest, '.');
        if k < 0 {
            None
        } else if k == 0 || k + 1 == rest.len() {
            None
        } else {
            Some((rest.take(k), rest.skip(k + 1)))
        }
    }
}

/// The text of the token with id `id` and secret `secret`.
pub fn format_pat(id: &str, secret: &str) -> (s: String)
    ensures
        s@ == pat_text(id@, secret@),
{
    let mut s = "pat_".to_owned();
    let i = chars_of(id);
    push_chars(&mut s, i.as_slice());
    crate::text::string_push(&mut s, '.');
    let v = chars_of(secret);
    push_chars(&mut s, v.as_slice());
    s
}

/// Reads a token text (see `parse_pat_spec`); refused as `InvalidFormat` otherwise.
pub fn parse_pat(token: &str) -> (r: Result<(String, String), PatError>)
    ensures
        match parse_pat_spec(token@) {
            Some((i, s)) => r matches Ok((a, b)) && a@ == i && b@ == s,
            None => r == Err::<(String, String), PatError>(PatError::InvalidFormat),
        },
{
    let v = chars_of(token);
    let p = chars_of("pat_");
    proof {
        reveal_strlit("pat_");
    }
    if !starts_with(v.as_slice(), p.as_slice()) {
        return Err(PatError::InvalidFormat);
    }
    let ghost rest = v@.skip(4);
    proof {
        lemma_first_index_of(rest, '.');
    }
    let mut k: usize = 4;
    while k < v.len() && v[k] != '.'
        invariant
            4 <= k <= v.len(),
            rest == v@.skip(4),
            forall|j: int| 4 <= j < k ==> v@[j] != '.',
        decreases v.len() - k,
    {
        k += 1;
    }
    proof {
        if k < v.len() {
            assert(rest[k - 4] == '.');
            assert forall|j: int| 0 <= j < k - 4 implies rest[j] != '.' by {
                assert(rest[j] == v@[j + 4]);
            }
            if first_index_of(rest, '.') >= 0 && first_index_of(rest, '.') < k - 4 {
                assert(rest[first_index_of(rest, '.')] == '.');
            }
            assert(first_index_of(rest, '.') == k - 4);
        } else {
            assert forall|j: int| 0 <= j < rest.len() implies rest[j] != '.' by {
                assert(rest[j] == v@[j + 4]);
            }
            if first_index_of(rest, '.') >= 0 {
                assert(rest[first_index_of(rest, '.')] == '.');
            }
        }
    }
    if k == v.len() || k == 4 || k + 1 == v.len() {
        return Err(PatError::InvalidFormat);
    }
    let mut id: Vec<char> = Vec::new();
    let mut j: usize = 4;
    while j < k
        invariant
            4 <= j <= k < v.len(),
            id@ == v@.subrange(4, j as int),
        decreases k - j,
    {
        id.push(v[j]);
        proof {
            assert(v@.subrange(4, j + 1) =~= v@.subrange(4, j as int).push(v@[j as int]));
        }
        j += 1;
    }
    let mut secret: Vec<char> = Vec::new();
    let mut m: usize = k + 1;
    while m < v.len()
        invariant
            k + 1 <= m <= v.len(),
            secret@ == v@.subrange(k + 1, m as int),
        decreases v.len() - m,
    {
        secret.push(v[m]);
        proof {
            assert(v@.subrange(k + 1, m + 1) =~= v@.subrange(k + 1, m as int).push(v@[m as int]));
        }
        m += 1;
    }
    proof {
        assert(rest.take(k - 4) =~= v@.subrange(4, k as int));
        assert(rest.skip(k - 4 + 1) =~= v@.subrange(k + 1, v@.len() as int));
    }
    Ok((string_of(id.as_slice()), string_of(secret.as_slice())))
}

/// A token's text reads back as the id and secret it was made of, when the id is not
/// empty and holds no '.', and the secret is not empty.
pub proof fn law_pat_roundtrip(id: Seq<char>, secret: Seq<char>)
    requires
        id.len() > 0,
        secret.len() > 0,
        forall|j: int| 0 <= j < id.len() ==> id[j] != '.',
    ensures
        parse_pat_spec(pat_text(id, secret)) == Some((id, secret)),
{
    reveal_strlit("pat_");
    let t = pat_text(id, secret);
    assert(t.take(4) =~= "pat_"@);
    let rest = t.skip(4);
    assert(rest =~= id + seq!['.'] + secret);
    lemma_first_index_of_absent_then(id, secret, '.');
    assert(rest.take(id.len() as int) =~= id);
    assert(rest.skip(id.len() as int + 1) =~= secret);
}

/// What checking secret `secret` against a token's stored record (if any) at time `now`
/// gives: the record's role, or why it is refused, in this order: no record, expired
/// (at or after its expiry time), unreadable hash, wrong secret.
pub open spec fn pat_verdict(record: Option<PatRecord>, secret: Seq<char>, now: i64) -> Result<Role, PatError> {
    match record {
        None => Err(PatError::NotFound),
        Some(rec) => if rec.expires_at <= now {
            Err(PatError::Expired)
        } else if !argon2_hash_parses(rec.token_hash@) {
            Err(PatError::InvalidHash)
        } else if !argon2_verifies(secret, rec.token_hash@) {
            Err(PatError::InvalidSecret)
        } else {
            Ok(rec.role)
        },
    }
}

/// Checks `secret` against the stored record at time `now` (see `pat_verdict`).
pub fn check_pat_at(record: &Option<PatRecord>, secret: &str, now: i64) -> (r: Result<Role, PatError>)
    ensures
        r == pat_verdict(*record, secret@, now),
{
    match record {
        None => Err(PatError::NotFound),
        Some(rec) => {
            if rec.expires_at <= now {
                return Err(PatError::Expired);
            }
            match check_secret(secret, rec.token_hash.as_str()) {
                Err(_) => Err(PatError::InvalidHash),
                Ok(false) => Err(PatError::InvalidSecret),
                Ok(true) => Ok(rec.role),
            }
        },
    }
}

/// Checks `secret` against the stored record now (see `pat_verdict`).
pub fn check_pat(record: &Option<PatRecord>, secret: &str) -> (r: Result<Role, PatError>)
    ensures
        exists|now: i64| now >= 0 && r == pat_verdict(*record, secret@, now),
{
    let now = current_ts();
    check_pat_at(record, secret, now)
}

/// The character with index `v` (0 to 63) of the URL-safe base64 alphabet: 'A' to 'Z',
/// 'a' to 'z', '0' to '9', '-' and '_'.
pub open spec fn b64url_digit(v: int) -> char {
    if v < 26 {
        ('A' as int + v) as char
    } else if v < 52 {
        ('a' as int + (v - 26)) as char
    } else if v < 62 {
        ('0' as int + (v - 52)) as char
    } else if v == 62 {
        '-'
    } else {
        '_'
    }
}

/// The URL-safe base64 text of `bytes`, without padding: each group of three bytes gives
/// four digits of six bits each, and a last one or two bytes give two or three digits,
/// the last filled with zero bits.
pub open spec fn b64url(bytes: Seq<u8>) -> Seq<char>
    decreases bytes.len(),
{
    if bytes.len() == 0 {
        Seq::empty()
    } else if bytes.len() == 1 {
        seq![b64url_digit((bytes[0] as int) / 4), b64url_digit(((bytes[0] as int) % 4) * 16)]
    } else if bytes.len() == 2 {
        seq![
            b64url_digit((bytes[0] as int) / 4),
            b64url_digit(((bytes[0] as int) % 4) * 16 + (bytes[1] as int) / 16),
            b64url_digit(((bytes[1] as int) % 16) * 4),
        ]
    } else {
        seq![
            b64url_digit((bytes[0] as int) / 4),
            b64url_digit(((bytes[0] as int) % 4) * 16 + (bytes[1] as int) / 16),
            b64url_digit(((bytes[1] as int) % 16) * 4 + (bytes[2] as int) / 64),
            b64url_digit((bytes[2] as int) % 64),
        ] + b64url(bytes.skip(3))
    }
}

proof fn lemma_b64url_digit(v: int)
    requires
        0 <= v < 64,
    ensures
        is_b64url_char(b64url_digit(v)),
{
}

/// The text has four characters for each three bytes and two or three for a last one or
/// two, all in the URL-safe alphabet.
proof fn lemma_b64url_shape(bytes: Seq<u8>)
    ensures
        b64url(bytes).len() == (4 * bytes.len() + 2) / 3,
        forall|j: int| 0 <= j < b64url(bytes).len() ==> is_b64url_char(#[trigger] b64url(bytes)[j]),
    decreases bytes.len(),
{
    if bytes.len() >= 1 {
        lemma_b64url_digit((bytes[0] as int) / 4);
        lemma_b64url_digit(((bytes[0] as int) % 4) * 16);
    }
    if bytes.len() >= 2 {
        lemma_b64url_digit(((bytes[0] as int) % 4) * 16 + (bytes[1] as int) / 16);
        lemma_b64url_digit(((bytes[1] as int) % 16) * 4);
    }
    if bytes.len() >= 3 {
        lemma_b64url_digit(((bytes[1] as int) % 16) * 4 + (bytes[2] as int) / 64);
        lemma_b64url_digit((bytes[2] as int) % 64);
        lemma_b64url_shape(bytes.skip(3));
        let head = seq![
            b64url_digit((bytes[0] as int) / 4),
            b64url_digit(((bytes[0] as int) % 4) * 16 + (bytes[1] as int) / 16),
            b64url_digit(((bytes[1] as int) % 16) * 4 + (bytes[2] as int) / 64),
            b64url_digit((bytes[2] as int) % 64),
        ];
        let rest = b64url(bytes.skip(3));
        assert forall|j: int| 0 <= j < (head + rest).len() implies is_b64url_char(#[trigger] (head + rest)[j]) by {
            if j >= 4 {
                assert((head + rest)[j] == rest[j - 4]);
            }
        }
    }
}

/// Whether `c` is in the URL-safe base64 alphabet.
pub open spec fn is_b64url_char(c: char) -> bool {
    ('A' <= c && c <= 'Z') || ('a' <= c && c <= 'z') || ('0' <= c && c <= '9') || c == '-' || c == '_'
}

/// Calls `base64::engine::general_purpose::URL_SAFE_NO_PAD.encode`: the URL-safe base64
/// text of the bytes without padding (`b64url`), as RFC 4648 defines it.
#[verifier::external_body]
fn b64url_encode(bytes: &[u8]) -> (s: String)
    ensures
        s@ == b64url(bytes@),
{
    base64::engine::general_purpose::URL_SAFE_NO_PAD.encode(bytes)
}

/// The URL-safe base64 text of `bytes`: four characters for each three bytes and two or
/// three for a last one or two, all in the URL-safe alphabet.
pub(crate) fn encode_b64url(bytes: &[u8]) -> (s: String)
    ensures
        s@ == b64url(bytes@),
        s@.len() == (4 * bytes@.len() + 2) / 3,
        forall|j: int| 0 <= j < s@.len() ==> is_b64url_char(#[trigger] s@[j]),
{
    proof {
        lemma_b64url_shape(bytes@);
    }
    b64url_encode(bytes)
}

/// Calls `rand::rngs::OsRng.fill_bytes` on a buffer of `n` zero bytes. The bytes are
/// random: the contract states only their number. `OsRng` panics when the system source
/// of randomness fails.
#[verifier::external_body]
pub(crate) fn random_bytes(n: usize) -> (b: Vec<u8>)
    ensures
        b@.len() == n,
{
    let mut b = vec![0u8; n];
    rand::rngs::OsRng.fill_bytes(&mut b);
    b
}

/// Whether `pat` and `rec` are a token made for `name`, `user`, `role` and `expires_at`:
/// a random id, a secret whose hash is stored, and the token text of the two.
pub open spec fn is_new_token(
    pat: Seq<char>,
    rec: PatRecord,
    secret: Seq<char>,
    name: Seq<char>,
    user: Seq<char>,
    role: Role,
    expires_at: i64,
) -> bool {
    &&& is_v4_text(rec.id@)
    &&& rec.name@ == name
    &&& rec.user@ == user
    &&& rec.role == role
    &&& rec.expires_at == expires_at
    &&& secret.len() == 43
    &&& forall|j: int| 0 <= j < secret.len() ==> is_b64url_char(#[trigger] secret[j])
    &&& argon2_hash_parses(rec.token_hash@)
    &&& argon2_verifies(secret, rec.token_hash@)
    &&& pat == pat_text(rec.id@, secret)
}

/// Makes a token: a random id, a secret of 32 random bytes in URL-safe base64, and the
/// record holding the secret's hash; returns the token text (shown once; its secret is
/// what follows the id's 36 characters and the '.') and the record.
/// Refused with `HashFailed` when hashing fails.
pub fn new_pat(name: String, user: String, role: Role, expires_at: i64) -> (r: Result<(String, PatRecord), PatError>)
    ensures
        r matches Ok((pat, rec)) ==> is_new_token(pat@, rec, pat@.skip(41), name@, user@, role, expires_at),
        r matches Err(e) ==> e is HashFailed,
{
    let id = random_uuid();
    let bytes = random_bytes(32);
    let secret = encode_b64url(bytes.as_slice());
    let pat = format_pat(id.as_str(), secret.as_str());
    match hash_secret(secret.as_str()) {
        Ok(h) => {
            let rec = PatRecord { id, name, user, role, token_hash: h, expires_at };
            proof {
                reveal_strlit("pat_");
                assert(pat@.skip(41) =~= secret@);
            }
            Ok((pat, rec))
        },
        Err(_) => Err(PatError::HashFailed),
    }
}

/// A token that was just made reads back as its record's id and its secret, and checks
/// against its record, before it expires, to the role it was made for.
pub proof fn law_new_token_verifies(
    pat: Seq<char>,
    rec: PatRecord,
    secret: Seq<char>,
    name: Seq<char>,
    user: Seq<char>,
    role: Role,
    expires_at: i64,
    now: i64,
)
    requires
        is_new_token(pat, rec, secret, name, user, role, expires_at),
        now < expires_at,
    ensures
        parse_pat_spec(pat) == Some((rec.id@, secret)),
        pat_verdict(Some(rec), secret, now) == Ok::<Role, PatError>(role),
{
    assert forall|j: int| 0 <= j < rec.id@.len() implies rec.id@[j] != '.' by {
        if j == 8 || j == 13 || j == 18 || j == 23 {
        } else {
            assert(crate::fresh::is_lower_hex(rec.id@[j]));
        }
    }
    law_pat_roundtrip(rec.id@, secret);
}

} // verus!
