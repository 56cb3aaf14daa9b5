//! Character-level helpers shared by the path, name and key logic.
use vstd::prelude::*;

verus! {

/// The characters of a string slice, in order.
pub fn chars_of(s: &str) -> (v: Vec<char>)
    ensures
        v@ == s@,
{
    let mut v: Vec<char> = Vec::new();
    for c in iter: s.chars()
        invariant
            v@ == iter.seq().take(iter.index() as int),
    {
        v.push(c);
    }
    v
}

/// Appends one character to a `String` (`String::push`).
#[verifier::external_body]
pub(crate) fn string_push(s: &mut String, c: char)
    ensures
        final(s)@ == old(s)@.push(c),
{
    s.push(c);
}

/// Appends the characters of `v` to `s`.
pub fn push_chars(s: &mut String, v: &[char])
    ensures
        final(s)@ == old(s)@ + v@,
{
    let ghost start = s@;
    let mut i: usize = 0;
    while i < v.len()
        invariant
            i <= v.len(),
            s@ == start + v@.take(i as int),
        decreases v.len() - i,
    {
        string_push(s, v[i]);
        i += 1;
        proof {
            assert(v@.take(i as int) =~= v@.take(i - 1).push(v@[i - 1]));
        }
    }
    proof {
        assert(v@.take(v@.len() as int) =~= v@);
    }
}

/// A `String` holding exactly the characters of `v`.
pub fn string_of(v: &[char]) -> (s: String)
    ensures
        s@ == v@,
{
    let mut s = String::new();
    push_chars(&mut s, v);
    proof {
        assert(Seq::<char>::empty() + v@ =~= v@);
    }
    s
}

/// Whether two character sequences are equal.
pub fn chars_eq(a: &[char], b: &[char]) -> (r: bool)
    ensures
        r == (a@ == b@),
{
    if a.len() != b.len() {
        return false;
    }
    let mut i: usize = 0;
    while i < a.len()
        invariant
            i <= a.len(),
            a.len() == b.len(),
            forall|j: int| 0 <= j < i ==> a@[j] == b@[j],
        decreases a.len() - i,
    {
        if a[i] != b[i] {
            return false;
        }
        i += 1;
    }
    proof {
        assert(a@ =~= b@);
    }
    true
}

/// Whether `a` starts with `p`.
pub open spec fn has_prefix(a: Seq<char>, p: Seq<char>) -> bool {
    p.len() <= a.len() && a.take(p.len() as int) == p
}

/// Whether `a` starts with `p`.
pub fn starts_with(a: &[char], p: &[char]) -> (r: bool)
    ensures
        r == has_prefix(a@, p@),
{
    if p.len() > a.len() {
        return false;
    }
    let mut i: usize = 0;
    while i < p.len()
        invariant
            i <= p.len(),
            p.len() <= a.len(),
            forall|j: int| 0 <= j < i ==> a@[j] == p@[j],
        decreases p.len() - i,
    {
        if a[i] != p[i] {
            return false;
        }
        i += 1;
    }
    proof {
        assert(a@.take(p@.len() as int) =~= p@);
    }
    true
}

/// Whether `p` occurs in `a` at position `k`.
pub open spec fn occurs_at(a: Seq<char>, p: Seq<char>, k: int) -> bool {
    0 <= k && k + p.len() <= a.len() && a.subrange(k, k + p.len()) == p
}

/// Whether `p` occurs somewhere in `a` (the empty sequence occurs everywhere).
pub open spec fn contains_seq(a: Seq<char>, p: Seq<char>) -> bool {
    exists|k: int| occurs_at(a, p, k)
}

fn occurs_at_exec(a: &[char], p: &[char], k: usize) -> (r: bool)
    requires
        k + p.len() <= a.len(),
    ensures
        r == occurs_at(a@, p@, k as int),
{
    let mut i: usize = 0;
    while i < p.len()
        invariant
            i <= p.len(),
            k + p.len() <= a.len(),
            forall|j: int| 0 <= j < i ==> a@[k + j] == p@[j],
        decreases p.len() - i,
    {
        if a[k + i] != p[i] {
            assert(a@.subrange(k as int, k + p.len())[i as int] != p@[i as int]);
            return false;
        }
        i += 1;
    }
    proof {
        assert(a@.subrange(k as int, k + p.len()) =~= p@);
    }
    true
}

/// Whether `p` occurs somewhere in `a`.
pub fn contains_chars(a: &[char], p: &[char]) -> (r: bool)
    ensures
        r == contains_seq(a@, p@),
{
    if p.len() > a.len() {
        proof {
            assert forall|k: int| !occurs_at(a@, p@, k) by {}
        }
        return false;
    }
    let last = a.len() - p.len();
    let mut k: usize = 0;
    loop
        invariant
            p.len() <= a.len(),
            last == a.len() - p.len(),
            k <= last,
            forall|j: int| 0 <= j < k ==> !occurs_at(a@, p@, j),
        ensures
            forall|j: int| 0 <= j <= last ==> !occurs_at(a@, p@, j),
        decreases last - k,
    {
        if occurs_at_exec(a, p, k) {
            return true;
        }
        if k == last {
            break;
        }
        k += 1;
    }
    proof {
        assert forall|j: int| !occurs_at(a@, p@, j) by {
            if 0 <= j && j + p@.len() <= a@.len() {
                assert(j <= last);
            }
        }
    }
    false
}

/// ASCII lower-casing of one character; every other character is kept.
pub open spec fn ascii_lower(c: char) -> char {
    if 'A' <= c && c <= 'Z' {
        ((c as u32) + 32) as char
    } else {
        c
    }
}

/// ASCII lower-casing of every character of a sequence.
pub open spec fn ascii_lower_seq(s: Seq<char>) -> Seq<char> {
    s.map_values(|c: char| ascii_lower(c))
}

/// ASCII lower-casing of one character (`char::to_ascii_lowercase`).
pub fn lower_char(c: char) -> (r: char)
    ensures
        r == ascii_lower(c),
{
    if 'A' <= c && c <= 'Z' {
        let code: u8 = ((c as u32) + 32) as u8;
        code as char
    } else {
        c
    }
}

/// ASCII lower-casing of every character of `v`.
pub fn lower_chars(v: &[char]) -> (r: Vec<char>)
    ensures
        r@ == ascii_lower_seq(v@),
{
    let mut r: Vec<char> = Vec::new();
    let mut i: usize = 0;
    while i < v.len()
        invariant
            i <= v.len(),
            r@ == ascii_lower_seq(v@.take(i as int)),
        decreases v.len() - i,
    {
        r.push(lower_char(v[i]));
        i += 1;
        proof {
            assert(ascii_lower_seq(v@.take(i as int)) =~= ascii_lower_seq(v@.take(i - 1)).push(
                ascii_lower(v@[i - 1]),
            ));
        }
    }
    proof {
        assert(v@.take(v@.len() as int) =~= v@);
    }
    r
}

/// The white-space characters of Unicode (`char::is_whitespace`).
pub open spec fn is_white(c: char) -> bool {
    ||| ('\u{9}' <= c && c <= '\u{d}')
    ||| c == ' '
    ||| c == '\u{85}'
    ||| c == '\u{a0}'
    ||| c == '\u{1680}'
    ||| ('\u{2000}' <= c && c <= '\u{200a}')
    ||| c == '\u{2028}'
    ||| c == '\u{2029}'
    ||| c == '\u{202f}'
    ||| c == '\u{205f}'
    ||| c == '\u{3000}'
}

/// Whether `c` is a white-space character.
pub fn white(c: char) -> (r: bool)
    ensures
        r == is_white(c),
{
    ('\u{9}' <= c && c <= '\u{d}') || c == ' ' || c == '\u{85}' || c == '\u{a0}' || c == '\u{1680}'
        || ('\u{2000}' <= c && c <= '\u{200a}') || c == '\u{2028}' || c == '\u{2029}' || c
        == '\u{202f}' || c == '\u{205f}' || c == '\u{3000}'
}

/// Number of white-space characters at the start of `s`.
pub open spec fn lead_white(s: Seq<char>) -> nat
    decreases s.len(),
{
    if s.len() > 0 && is_white(s[0]) {
        1 + lead_white(s.drop_first())
    } else {
        0
    }
}

/// Number of white-space characters at the end of `s`.
pub open spec fn trail_white(s: Seq<char>) -> nat
    decreases s.len(),
{
    if s.len() > 0 && is_white(s.last()) {
        1 + trail_white(s.drop_last())
    } else {
        0
    }
}

/// `s` without its leading and trailing white space (`str::trim`).
pub open spec fn trimmed(s: Seq<char>) -> Seq<char> {
    let a = lead_white(s);
    if a == s.len() {
        Seq::empty()
    } else {
        s.subrange(a as int, s.len() - trail_white(s))
    }
}

proof fn lemma_lead_white_bound(s: Seq<char>)
    ensures
        lead_white(s) <= s.len(),
        forall|j: int| 0 <= j < lead_white(s) ==> is_white(#[trigger] s[j]),
        lead_white(s) < s.len() ==> !is_white(s[lead_white(s) as int]),
    decreases s.len(),
{
    if s.len() > 0 && is_white(s[0]) {
        lemma_lead_white_bound(s.drop_first());
        assert forall|j: int| 0 <= j < lead_white(s) implies is_white(#[trigger] s[j]) by {
            if j > 0 {
                assert(s[j] == s.drop_first()[j - 1]);
            }
        }
    }
}

proof fn lemma_trail_white_bound(s: Seq<char>)
    ensures
        trail_white(s) <= s.len(),
        forall|j: int| s.len() - trail_white(s) <= j < s.len() ==> is_white(#[trigger] s[j]),
        trail_white(s) < s.len() ==> !is_white(s[s.len() - trail_white(s) - 1]),
    decreases s.len(),
{
    if s.len() > 0 && is_white(s.last()) {
        lemma_trail_white_bound(s.drop_last());
        assert forall|j: int| s.len() - trail_white(s) <= j < s.len() implies is_white(
            #[trigger] s[j],
        ) by {
            if j < s.len() - 1 {
                assert(s[j] == s.drop_last()[j]);
            }
        }
    }
}

/// Number of leading white-space characters of `v`.
fn count_lead_white(v: &[char]) -> (n: usize)
    ensures
        n == lead_white(v@),
{
    let mut i: usize = 0;
    proof {
        assert(v@.skip(0) =~= v@);
    }
    while i < v.len() && white(v[i])
        invariant
            i <= v.len(),
            lead_white(v@) == i + lead_white(v@.skip(i as int)),
        decreases v.len() - i,
    {
        proof {
            assert(v@.skip(i as int).drop_first() =~= v@.skip(i + 1));
        }
        i += 1;
    }
    i
}

/// Number of trailing white-space characters of `v`.
fn count_trail_white(v: &[char]) -> (n: usize)
    ensures
        n == trail_white(v@),
{
    let mut i: usize = 0;
    proof {
        assert(v@.take(v.len() as int) =~= v@);
    }
    while i < v.len() && white(v[v.len() - 1 - i])
        invariant
            i <= v.len(),
            trail_white(v@) == i + trail_white(v@.take(v.len() - i)),
        decreases v.len() - i,
    {
        proof {
            let t = v@.take(v.len() - i);
            assert(t.last() == v@[v.len() - 1 - i]);
            assert(t.drop_last() =~= v@.take(v.len() - i - 1));
        }
        i += 1;
    }
    proof {
        if i < v.len() {
            let t = v@.take(v.len() - i);
            assert(t.last() == v@[v.len() - 1 - i]);
        }
        assert(v@.take(v.len() as int) =~= v@);
    }
    i
}

/// `v` without leading and trailing white space.
pub fn trim_chars(v: &[char]) -> (r: Vec<char>)
    ensures
        r@ == trimmed(v@),
{
    let a = count_lead_white(v);
    proof {
        lemma_lead_white_bound(v@);
        lemma_trail_white_bound(v@);
    }
    let mut r: Vec<char> = Vec::new();
    if a == v.len() {
        return r;
    }
    let b = count_trail_white(v);
    proof {
        // a non-white character sits at index `a`, so the trailing run cannot reach it
        assert(!is_white(v@[a as int]));
        if a >= v@.len() - b {
            assert(is_white(v@[a as int]));
        }
    }
    let end = v.len() - b;
    let mut i = a;
    while i < end
        invariant
            a <= i <= end,
            end <= v.len(),
            r@ == v@.subrange(a as int, i as int),
        decreases end - i,
    {
        r.push(v[i]);
        i += 1;
        proof {
            assert(v@.subrange(a as int, i as int) =~= v@.subrange(a as int, i - 1).push(v@[i - 1]));
        }
    }
    r
}

} // verus!
