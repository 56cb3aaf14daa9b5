//! Names that stand for a range of copies: "name[start:stop:step]".
use vstd::prelude::*;

use crate::text::{chars_of, push_chars};

verus! {

/// Whether `c` is an ASCII decimal digit.
pub open spec fn is_digit(c: char) -> bool {
    '0' <= c && c <= '9'
}

/// The value of a decimal digit.
pub open spec fn digit_value(c: char) -> nat {
    ((c as u32) - 48) as nat
}

/// The value of a string of decimal digits.
pub open spec fn dec_value(s: Seq<char>) -> nat
    decreases s.len(),
{
    if s.len() == 0 {
        0
    } else {
        dec_value(s.drop_last()) * 10 + digit_value(s.last())
    }
}

/// The character of a digit value below ten.
pub open spec fn digit_char(d: nat) -> char {
    ((48 + d) as u8) as char
}

/// The decimal representation of `n` (`n.to_string()`).
pub open spec fn dec_string(n: nat) -> Seq<char>
    decreases n,
{
    if n < 10 {
        seq![digit_char(n)]
    } else {
        dec_string(n / 10).push(digit_char(n % 10))
    }
}

/// Number of consecutive digits of `t` starting at `i`.
pub open spec fn digit_run(t: Seq<char>, i: int) -> nat
    decreases t.len() - i,
{
    if 0 <= i < t.len() && is_digit(t[i]) {
        1 + digit_run(t, i + 1)
    } else {
        0
    }
}

/// An optional unsigned decimal number at position `i` of `t` and how many characters it
/// takes: "0", or a digit from 1 to 9 followed by all the digits after it, whose value
/// fits a `usize`. Anything else reads as no number and takes nothing.
pub open spec fn number_at(t: Seq<char>, i: int) -> (Option<usize>, int) {
    if 0 <= i < t.len() && is_digit(t[i]) {
        if t[i] == '0' {
            (Some(0usize), 1)
        } else {
            let n = digit_run(t, i);
            let v = dec_value(t.subrange(i, i + n));
            if v <= usize::MAX {
                (Some(v as usize), n as int)
            } else {
                (None, 0)
            }
        }
    } else {
        (None, 0)
    }
}

/// `t` read as a whole as "[" start? ":" stop? (":" step?)? "]", giving the three
/// optional numbers; `None` when `t` is not of that form.
pub open spec fn parse_range_suffix(t: Seq<char>) -> Option<(Option<usize>, Option<usize>, Option<usize>)> {
    if t.len() == 0 || t[0] != '[' {
        None
    } else {
        let (a, la) = number_at(t, 1);
        let i1 = 1 + la;
        if !(i1 < t.len() && t[i1] == ':') {
            None
        } else {
            let i2 = i1 + 1;
            let (b, lb) = number_at(t, i2);
            let i3 = i2 + lb;
            let (c, i4) = if i3 < t.len() && t[i3] == ':' {
                let (c, lc) = number_at(t, i3 + 1);
                (c, i3 + 1 + lc)
            } else {
                (None, i3)
            };
            if i4 < t.len() && t.len() - 1 == i4 && t[i4] == ']' {
                Some((a, b, c))
            } else {
                None
            }
        }
    }
}

/// Index of the last occurrence of `c` in `s`, or -1.
pub open spec fn last_index_of(s: Seq<char>, c: char) -> int
    decreases s.len(),
{
    if s.len() == 0 {
        -1
    } else if s.last() == c {
        s.len() - 1
    } else {
        last_index_of(s.drop_last(), c)
    }
}

/// What `parse_repeated_name` finds in `s`: the range after the last '[' when that
/// part of `s` is a range, with the index of that '['.
pub open spec fn repeated_name_range(s: Seq<char>) -> Option<(int, (Option<usize>, Option<usize>, Option<usize>))> {
    let k = last_index_of(s, '[');
    if k < 0 {
        None
    } else {
        match parse_range_suffix(s.skip(k)) {
            Some(r) => Some((k, r)),
            None => None,
        }
    }
}

proof fn lemma_last_index_of(s: Seq<char>, c: char)
    ensures
        -1 <= last_index_of(s, c) < s.len(),
        last_index_of(s, c) >= 0 ==> s[last_index_of(s, c)] == c,
    decreases s.len(),
{
    if s.len() > 0 && s.last() != c {
        lemma_last_index_of(s.drop_last(), c);
    }
}

fn find_last(v: &[char], c: char) -> (k: Option<usize>)
    ensures
        match k {
            Some(i) => i as int == last_index_of(v@, c),
            None => last_index_of(v@, c) == -1,
        },
{
    let mut n = v.len();
    proof {
        assert(v@.take(v@.len() as int) =~= v@);
    }
    while n > 0
        invariant
            n <= v.len(),
            last_index_of(v@, c) == last_index_of(v@.take(n as int), c),
        decreases n,
    {
        proof {
            let t = v@.take(n as int);
            assert(t.last() == v@[n - 1]);
            assert(t.drop_last() =~= v@.take(n - 1));
        }
        if v[n - 1] == c {
            return Some(n - 1);
        }
        n -= 1;
    }
    proof {
        assert(v@.take(0) =~= Seq::<char>::empty());
    }
    None
}

fn digit(c: char) -> (r: bool)
    ensures
        r == is_digit(c),
{
    '0' <= c && c <= '9'
}

/// Reads `number_at(t, i)`.
fn number_at_exec(t: &[char], i: usize) -> (r: (Option<usize>, usize))
    requires
        i <= t.len(),
    ensures
        r.0 == number_at(t@, i as int).0,
        r.1 as int == number_at(t@, i as int).1,
        i + r.1 <= t.len(),
{
    if i < t.len() && digit(t[i]) {
        if t[i] == '0' {
            return (Some(0), 1);
        }
        let mut j = i;
        let mut v: usize = 0;
        let mut fits = true;
        while j < t.len() && digit(t[j])
            invariant
                i <= j <= t.len(),
                digit_run(t@, i as int) == (j - i) + digit_run(t@, j as int),
                fits ==> v as nat == dec_value(t@.subrange(i as int, j as int)),
                !fits ==> dec_value(t@.subrange(i as int, j as int)) > usize::MAX,
            decreases t.len() - j,
        {
            proof {
                assert(t@.subrange(i as int, j + 1).drop_last() =~= t@.subrange(i as int, j as int));
                assert(t@.subrange(i as int, j + 1).last() == t@[j as int]);
            }
            let d: usize = ((t[j] as u32) - 48) as usize;
            if fits {
                match v.checked_mul(10) {
                    Some(m) => match m.checked_add(d) {
                        Some(s) => {
                            v = s;
                        },
                        None => {
                            fits = false;
                        },
                    },
                    None => {
                        fits = false;
                    },
                }
            }
            j += 1;
        }
        proof {
            assert(digit_run(t@, j as int) == 0);
        }
        if fits {
            (Some(v), j - i)
        } else {
            (None, 0)
        }
    } else {
        (None, 0)
    }
}

/// Reads `parse_range_suffix(t)`.
fn parse_range_suffix_exec(t: &[char]) -> (r: Option<(Option<usize>, Option<usize>, Option<usize>)>)
    ensures
        r == parse_range_suffix(t@),
{
    if t.len() == 0 || t[0] != '[' {
        return None;
    }
    let (a, la) = number_at_exec(t, 1);
    let i1 = 1 + la;
    if !(i1 < t.len() && t[i1] == ':') {
        return None;
    }
    let i2 = i1 + 1;
    let (b, lb) = number_at_exec(t, i2);
    let i3 = i2 + lb;
    let (c, i4) = if i3 < t.len() && t[i3] == ':' {
        let (c, lc) = number_at_exec(t, i3 + 1);
        (c, i3 + 1 + lc)
    } else {
        (None, i3)
    };
    if i4 < t.len() && t.len() - 1 == i4 && t[i4] == ']' {
        Some((a, b, c))
    } else {
        None
    }
}

/// Splits a trailing range "[start:stop:step]" (each number optional, the second ':'
/// and the step optional) off `input`. When the part from the last '[' on is such a
/// range, `input` is cut before that '[' and the numbers are returned; otherwise
/// `input` is left as it is and no number is returned.
pub fn parse_repeated_name(input: &mut &str) -> (res: (Option<usize>, Option<usize>, Option<usize>))
    ensures
        match repeated_name_range(old(input)@) {
            Some((k, r)) => res == r && final(input)@ == old(input)@.take(k),
            None => res == (None::<usize>, None::<usize>, None::<usize>) && final(input)@ == old(
                input,
            )@,
        },
{
    let s = chars_of(*input);
    proof {
        lemma_last_index_of(s@, '[');
    }
    match find_last(s.as_slice(), '[') {
        Some(k) => {
            let mut t: Vec<char> = Vec::new();
            let mut j = k;
            while j < s.len()
                invariant
                    k <= j <= s.len(),
                    t@ == s@.subrange(k as int, j as int),
                decreases s.len() - j,
            {
                t.push(s[j]);
                j += 1;
                proof {
                    assert(s@.subrange(k as int, j as int) =~= s@.subrange(k as int, j - 1).push(
                        s@[j - 1],
                    ));
                }
            }
            proof {
                assert(s@.subrange(k as int, s@.len() as int) =~= s@.skip(k as int));
            }
            match parse_range_suffix_exec(t.as_slice()) {
                Some(r) => {
                    let cut = input.substring_char(0, k);
                    proof {
                        assert(cut@ =~= s@.take(k as int));
                    }
                    *input = cut;
                    r
                },
                None => (None, None, None),
            }
        },
        None => (None, None, None),
    }
}

/// The decimal representation of `n`.
pub fn dec_chars(n: usize) -> (v: Vec<char>)
    ensures
        v@ == dec_string(n as nat),
    decreases n,
{
    let d: u8 = (n % 10) as u8;
    let c: char = (48u8 + d) as char;
    if n < 10 {
        let mut v: Vec<char> = Vec::new();
        v.push(c);
        v
    } else {
        let mut v = dec_chars(n / 10);
        v.push(c);
        v
    }
}

/// Number of names `clone_name` makes from `start` to `stop` by `step`.
pub open spec fn clone_count(start: nat, stop: nat, step: nat) -> nat {
    if start <= stop && step > 0 {
        ((stop - start) / (step as int) + 1) as nat
    } else {
        0
    }
}

/// The names `clone_name` returns: `input` alone without a stop or with a zero step,
/// otherwise `input_n` for n = start, start + step, ... up to stop, with start 1 and
/// step 1 when not given.
pub open spec fn spec_clone_name(
    input: Seq<char>,
    start: Option<usize>,
    stop: Option<usize>,
    step: Option<usize>,
) -> Seq<Seq<char>> {
    match stop {
        None => seq![input],
        Some(end) => {
            let st = match start {
                Some(s) => s as nat,
                None => 1,
            };
            let sp = match step {
                Some(p) => p as nat,
                None => 1,
            };
            if sp == 0 {
                seq![input]
            } else {
                Seq::new(
                    clone_count(st, end as nat, sp),
                    |k: int| input.push('_') + dec_string((st + k * sp) as nat),
                )
            }
        },
    }
}

/// Whether counting from `start` by `step` past `stop` stays within `usize`.
pub open spec fn clone_counting_fits(start: Option<usize>, stop: Option<usize>, step: Option<usize>) -> bool {
    match stop {
        None => true,
        Some(end) => {
            let st = match start {
                Some(s) => s as nat,
                None => 1,
            };
            let sp = match step {
                Some(p) => p as nat,
                None => 1,
            };
            sp == 0 || st + clone_count(st, end as nat, sp) * sp <= usize::MAX
        },
    }
}

/// Expands a name into its numbered copies: `input_start`, `input_(start+step)`, ...
/// while the number does not exceed `stop` (start and step default to 1); `input`
/// alone when there is no stop or the step is zero.
pub fn clone_name(input: &str, start: Option<usize>, stop: Option<usize>, step: Option<usize>) -> (res: Vec<String>)
    requires
        clone_counting_fits(start, stop, step),
    ensures
        res@.len() == spec_clone_name(input@, start, stop, step).len(),
        forall|i: int|
            0 <= i < res@.len() ==> (#[trigger] res@[i])@ == spec_clone_name(
                input@,
                start,
                stop,
                step,
            )[i],
{
    match stop {
        Some(end) => {
            let start_val = match start {
                Some(s) => s,
                None => 1,
            };
            let step_val = match step {
                Some(p) => p,
                None => 1,
            };
            if step_val == 0 {
                let mut r: Vec<String> = Vec::new();
                r.push(input.to_owned());
                return r;
            }
            let ghost count = clone_count(start_val as nat, end as nat, step_val as nat);
            let name = chars_of(input);
            let mut result: Vec<String> = Vec::new();
            let mut current = start_val;
            let mut i: usize = 0;
            proof {
                assert(start_val + count * step_val <= usize::MAX);
                assert(count <= count * step_val) by (nonlinear_arith)
                    requires
                        step_val > 0,
                ;
            }
            while current <= end
                invariant
                    step_val > 0,
                    name@ == input@,
                    start_val + count * step_val <= usize::MAX,
                    count <= usize::MAX,
                    count == clone_count(start_val as nat, end as nat, step_val as nat),
                    i <= count,
                    current == start_val + i * step_val,
                    result@.len() == i,
                    forall|k: int|
                        0 <= k < i ==> (#[trigger] result@[k])@ == input@.push('_') + dec_string(
                            (start_val + k * step_val) as nat,
                        ),
                decreases count - i,
            {
                proof {
                    assert(i < count) by (nonlinear_arith)
                        requires
                            current == start_val + i * step_val,
                            current <= end,
                            step_val > 0,
                            count == clone_count(start_val as nat, end as nat, step_val as nat),
                            start_val <= current,
                    {
                        assert(start_val <= end);
                        assert((end - start_val) as int >= i * step_val);
                        assert((end - start_val) as int / (step_val as int) >= i) by {
                            vstd::arithmetic::div_mod::lemma_div_is_ordered(
                                i * step_val,
                                (end - start_val) as int,
                                step_val as int,
                            );
                            vstd::arithmetic::div_mod::lemma_div_multiples_vanish(
                                i as int,
                                step_val as int,
                            );
                        }
                    }
                    assert((i + 1) * step_val <= count * step_val) by (nonlinear_arith)
                        requires
                            i + 1 <= count,
                            step_val > 0,
                    ;
                    assert((i + 1) * step_val == i * step_val + step_val) by (nonlinear_arith);
                }
                let mut entry = String::new();
                push_chars(&mut entry, name.as_slice());
                crate::text::string_push(&mut entry, '_');
                let digits = dec_chars(current);
                push_chars(&mut entry, digits.as_slice());
                proof {
                    assert(entry@ =~= input@.push('_') + dec_string(current as nat));
                }
                result.push(entry);
                current = current + step_val;
                i = i + 1;
            }
            proof {
                if i < count {
                    assert(false) by (nonlinear_arith)
                        requires
                            current == start_val + i * step_val,
                            current > end,
                            i < count,
                            step_val > 0,
                            count == clone_count(start_val as nat, end as nat, step_val as nat),
                    {
                        assert(start_val <= end);
                        assert(i + 1 <= (end - start_val) as int / (step_val as int) + 1);
                        assert(i <= (end - start_val) as int / (step_val as int));
                        assert(i * step_val <= ((end - start_val) as int / (step_val as int))
                            * step_val);
                        vstd::arithmetic::div_mod::lemma_fundamental_div_mod(
                            (end - start_val) as int,
                            step_val as int,
                        );
                        vstd::arithmetic::mul::lemma_mul_is_commutative(
                            (end - start_val) as int / (step_val as int),
                            step_val as int,
                        );
                    }
                }
            }
            result
        },
        None => {
            let mut r: Vec<String> = Vec::new();
            r.push(input.to_owned());
            r
        },
    }
}

} // verus!
