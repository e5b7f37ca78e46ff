//! Text helpers: decimal numerals and substring search over characters.

use vstd::prelude::*;
use vstd::string::StringExecFns;
use vstd::string::StrSliceExecFns;

verus! {

/// The numeral of a single decimal digit.
pub open spec fn digit_char(d: nat) -> char
    recommends
        d < 10,
{
    if d == 0 {
        '0'
    } else if d == 1 {
        '1'
    } else if d == 2 {
        '2'
    } else if d == 3 {
        '3'
    } else if d == 4 {
        '4'
    } else if d == 5 {
        '5'
    } else if d == 6 {
        '6'
    } else if d == 7 {
        '7'
    } else if d == 8 {
        '8'
    } else {
        '9'
    }
}

/// The decimal numeral of `n`, most significant digit first, without leading
/// zeros (`0` is written as one digit).
pub open spec fn decimal(n: nat) -> Seq<char>
    decreases n,
{
    if n < 10 {
        seq![digit_char(n)]
    } else {
        decimal(n / 10).push(digit_char(n % 10))
    }
}

/// `pat` occurs in `s` as a run of consecutive characters.
pub open spec fn occurs_in(pat: Seq<char>, s: Seq<char>) -> bool {
    exists|i: int| occurs_at(pat, s, i)
}

/// `pat` occurs in `s` starting at position `i`.
pub open spec fn occurs_at(pat: Seq<char>, s: Seq<char>, i: int) -> bool {
    &&& 0 <= i
    &&& i + pat.len() <= s.len()
    &&& s.subrange(i, i + pat.len()) == pat
}

fn digit_str(d: u64) -> (s: &'static str)
    requires
        d < 10,
    ensures
        s@ == seq![digit_char(d as nat)],
{
    proof {
        reveal_strlit("0");
        reveal_strlit("1");
        reveal_strlit("2");
        reveal_strlit("3");
        reveal_strlit("4");
        reveal_strlit("5");
        reveal_strlit("6");
        reveal_strlit("7");
        reveal_strlit("8");
        reveal_strlit("9");
    }
    let s: &'static str = if d == 0 {
        "0"
    } else if d == 1 {
        "1"
    } else if d == 2 {
        "2"
    } else if d == 3 {
        "3"
    } else if d == 4 {
        "4"
    } else if d == 5 {
        "5"
    } else if d == 6 {
        "6"
    } else if d == 7 {
        "7"
    } else if d == 8 {
        "8"
    } else {
        "9"
    };
    assert(s@ =~= seq![digit_char(d as nat)]);
    s
}

/// Appends the decimal numeral of `n` to `out`.
pub fn push_decimal(out: &mut String, n: u64)
    ensures
        final(out)@ == old(out)@ + decimal(n as nat),
    decreases n,
{
    if n >= 10 {
        push_decimal(out, n / 10);
    }
    out.append(digit_str(n % 10));
    assert(final(out)@ =~= old(out)@ + decimal(n as nat));
}

/// Tells whether `pat` matches `s` at character position `start`.
fn matches_at(s: &str, pat: &str, start: usize, s_len: usize, pat_len: usize) -> (hit: bool)
    requires
        s_len == s@.len(),
        pat_len == pat@.len(),
        start + pat_len <= s_len,
    ensures
        hit == occurs_at(pat@, s@, start as int),
{
    let mut j: usize = 0;
    while j < pat_len
        invariant
            j <= pat_len,
            s_len == s@.len(),
            pat_len == pat@.len(),
            start + pat_len <= s_len,
            forall|k: int| 0 <= k < j ==> s@[start + k] == pat@[k],
        decreases pat_len - j,
    {
        if s.get_char(start + j) != pat.get_char(j) {
            assert(s@.subrange(start as int, start + pat@.len())[j as int] != pat@[j as int]);
            return false;
        }
        j = j + 1;
    }
    assert(s@.subrange(start as int, start + pat@.len()) =~= pat@);
    true
}

/// Tells whether `pat` occurs somewhere in `s`.
pub fn contains(s: &str, pat: &str) -> (found: bool)
    ensures
        found == occurs_in(pat@, s@),
{
    let s_len: usize = s.unicode_len();
    let pat_len: usize = pat.unicode_len();
    if pat_len > s_len {
        assert(forall|i: int| !occurs_at(pat@, s@, i));
        return false;
    }
    if pat_len == 0 {
        assert(s@.subrange(0, 0) =~= pat@);
        assert(occurs_at(pat@, s@, 0));
        return true;
    }
    let last: usize = s_len - pat_len;
    let mut i: usize = 0;
    while i <= last
        invariant
            i <= last + 1,
            last == s_len - pat_len,
            pat_len > 0,
            s_len == s@.len(),
            pat_len == pat@.len(),
            forall|k: int| 0 <= k < i ==> !occurs_at(pat@, s@, k),
        decreases last + 1 - i,
    {
        if matches_at(s, pat, i, s_len, pat_len) {
            return true;
        }
        i = i + 1;
    }
    assert(forall|k: int| !occurs_at(pat@, s@, k));
    false
}

} // verus!
