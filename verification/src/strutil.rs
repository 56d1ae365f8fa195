//! Character-sequence building blocks for the renderer's output buffer.
//!
//! The engine writes its output into a `Vec<char>`; these helpers append
//! repeated characters, string payloads and decimal numbers to it.

use vstd::prelude::*;

verus! {

/// `n` copies of the character `c`.
pub open spec fn repeat_char(c: char, n: nat) -> Seq<char> {
    Seq::new(n, |i: int| c)
}

/// The decimal digit character for `d`, which must be below ten.
pub open spec fn digit_char(d: nat) -> char {
    if d == 0 {
        '0'
    } else if d == 1 {
        '1'
    } else if d == 2 {
        '2'
    } else if d == 3 {
        '3'
    } else if d == 4 {
        '4'
    } else if d == 5 {
        '5'
    } else if d == 6 {
        '6'
    } else if d == 7 {
        '7'
    } else if d == 8 {
        '8'
    } else {
        '9'
    }
}

/// The decimal digits of `n`, most significant first.
pub open spec fn decimal_seq(n: nat) -> Seq<char>
    decreases n,
{
    if n < 10 {
        seq![digit_char(n)]
    } else {
        decimal_seq(n / 10).push(digit_char(n % 10))
    }
}

/// The decimal digits of `n`, right-justified to at least two columns with
/// a leading space, as used for ordered list markers.
pub open spec fn rjust2_seq(n: nat) -> Seq<char> {
    if n < 10 {
        seq![' '] + decimal_seq(n)
    } else {
        decimal_seq(n)
    }
}

/// The position of the first newline in `s`, or `s.len()` when there is
/// none.
pub open spec fn first_nl(s: Seq<char>) -> nat
    decreases s.len(),
{
    if s.len() == 0 {
        0
    } else if s.first() == '\n' {
        0
    } else {
        1 + first_nl(s.drop_first())
    }
}

/// `first_nl` is exactly the position of the first newline: everything
/// before it is not a newline, and it points at a newline unless there is
/// none in all of `s`.
pub proof fn lemma_first_nl_at(s: Seq<char>, k: int)
    requires
        0 <= k <= s.len(),
        forall|i: int| 0 <= i < k ==> s[i] != '\n',
        k < s.len() ==> s[k] == '\n',
    ensures
        first_nl(s) == k,
    decreases k,
{
    if k == 0 {
        if s.len() > 0 {
            assert(s.first() == '\n');
        }
    } else {
        assert(s[0] != '\n');
        assert(s.first() != '\n');
        assert forall|i: int| 0 <= i < k - 1 implies s.drop_first()[i] != '\n' by {
            assert(s.drop_first()[i] == s[i + 1]);
        }
        if k - 1 < s.drop_first().len() {
            assert(s.drop_first()[k - 1] == s[k]);
        }
        lemma_first_nl_at(s.drop_first(), k - 1);
    }
}

/// Relies on `str::chars`: yields exactly the characters of the string,
/// in order, which are collected onto the end of `out`.
#[verifier::external_body]
pub fn append_str(out: &mut Vec<char>, s: &str)
    ensures
        final(out)@ == old(out)@ + s@,
{
    out.extend(s.chars());
}

/// Relies on `Iterator::collect` for `String`: builds the string whose
/// characters are exactly the elements of `v`, in order.
#[verifier::external_body]
pub fn chars_string(v: &Vec<char>) -> (r: String)
    ensures
        r@ == v@,
{
    v.iter().collect()
}

/// Append `n` copies of `c` to `out`.
pub fn push_repeat(out: &mut Vec<char>, c: char, n: usize)
    ensures
        final(out)@ == old(out)@ + repeat_char(c, n as nat),
{
    let mut i: usize = 0;
    while i < n
        invariant
            i <= n,
            out@ == old(out)@ + repeat_char(c, i as nat),
        decreases n - i,
    {
        out.push(c);
        proof {
            assert(out@ =~= old(out)@ + repeat_char(c, (i + 1) as nat));
        }
        i = i + 1;
    }
    proof {
        assert(out@ =~= old(out)@ + repeat_char(c, n as nat));
    }
}

/// Append the characters of `v` to `out`.
pub fn append_chars(out: &mut Vec<char>, v: &Vec<char>)
    ensures
        final(out)@ == old(out)@ + v@,
{
    let mut i: usize = 0;
    while i < v.len()
        invariant
            i <= v.len(),
            out@ == old(out)@ + v@.take(i as int),
        decreases v.len() - i,
    {
        let c = v[i];
        out.push(c);
        proof {
            assert(out@ =~= old(out)@ + v@.take((i + 1) as int));
        }
        i = i + 1;
    }
    proof {
        assert(out@ =~= old(out)@ + v@);
    }
}

/// Append the decimal digits of `n` to `out`.
pub fn push_decimal(out: &mut Vec<char>, n: u64)
    ensures
        final(out)@ == old(out)@ + decimal_seq(n as nat),
    decreases n,
{
    if n >= 10 {
        push_decimal(out, n / 10);
    }
    let d = n % 10;
    let c = if d == 0 {
        '0'
    } else if d == 1 {
        '1'
    } else if d == 2 {
        '2'
    } else if d == 3 {
        '3'
    } else if d == 4 {
        '4'
    } else if d == 5 {
        '5'
    } else if d == 6 {
        '6'
    } else if d == 7 {
        '7'
    } else if d == 8 {
        '8'
    } else {
        '9'
    };
    proof {
        assert(c == digit_char((n % 10) as nat));
    }
    out.push(c);
    proof {
        if n < 10 {
            assert(out@ =~= old(out)@ + decimal_seq(n as nat));
        } else {
            assert(out@ =~= old(out)@ + decimal_seq(n as nat));
        }
    }
}

/// Append the decimal digits of `n`, right-justified to two columns.
pub fn push_rjust2(out: &mut Vec<char>, n: u64)
    ensures
        final(out)@ == old(out)@ + rjust2_seq(n as nat),
{
    if n < 10 {
        out.push(' ');
    }
    push_decimal(out, n);
    proof {
        assert(out@ =~= old(out)@ + rjust2_seq(n as nat));
    }
}

} // verus!
