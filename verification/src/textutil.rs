//! Small text helpers for the emitted source: decimal rendering of
//! integers, and the local-variable part of a dotted access path.

use vstd::prelude::*;

verus! {

/// The decimal digit character for `d < 10`.
pub open spec fn digit_char(d: nat) -> char {
    (((48 + d) as u8) as char)
}

/// The decimal digits of a natural number, most significant first.
pub open spec fn dec_seq(n: nat) -> Seq<char>
    decreases n,
{
    if n < 10 {
        seq![digit_char(n)]
    } else {
        dec_seq(n / 10) + seq![digit_char(n % 10)]
    }
}

/// The decimal rendering of a signed number: a minus sign before the
/// digits of its magnitude when it is negative.
pub open spec fn int_dec_seq(x: int) -> Seq<char> {
    if x >= 0 {
        dec_seq(x as nat)
    } else {
        seq!['-'] + dec_seq((-x) as nat)
    }
}

/// The suffix of `s` after its last `'.'`; all of `s` when it has none.
pub open spec fn after_last_dot(s: Seq<char>) -> Seq<char>
    decreases s.len(),
{
    if s.len() == 0 {
        s
    } else if s.last() == '.' {
        Seq::empty()
    } else {
        after_last_dot(s.drop_last()).push(s.last())
    }
}

/// Render a natural number in decimal.
pub fn u64_to_string(n: u64) -> (r: String)
    ensures
        r@ == dec_seq(n as nat),
    decreases n,
{
    if n < 10 {
        let mut s = String::new();
        let d: u8 = 48 + (n as u8);
        s.push(d as char);
        proof {
            assert(s@ =~= seq![digit_char(n as nat)]);
        }
        s
    } else {
        let mut s = u64_to_string(n / 10);
        let d: u8 = 48 + ((n % 10) as u8);
        s.push(d as char);
        proof {
            assert(s@ =~= dec_seq((n / 10) as nat) + seq![digit_char((n % 10) as nat)]);
            assert((n / 10) as nat == (n as nat) / 10);
            assert((n % 10) as nat == (n as nat) % 10);
        }
        s
    }
}

/// Render a signed 32-bit number in decimal.
pub fn i32_to_string(x: i32) -> (r: String)
    ensures
        r@ == int_dec_seq(x as int),
{
    let wide: i64 = x as i64;
    if wide < 0 {
        let mag: u64 = (-wide) as u64;
        let digits = u64_to_string(mag);
        let mut s = String::new();
        s.push('-');
        s.append(digits.as_str());
        proof {
            assert(s@ =~= seq!['-'] + dec_seq(mag as nat));
            assert(mag as nat == (-(x as int)) as nat);
        }
        s
    } else {
        u64_to_string(wide as u64)
    }
}

proof fn lemma_after_last_dot_no_dot(s: Seq<char>)
    requires
        forall|i: int| 0 <= i < s.len() ==> s[i] != '.',
    ensures
        after_last_dot(s) == s,
    decreases s.len(),
{
    if s.len() == 0 {
    } else {
        lemma_after_last_dot_no_dot(s.drop_last());
        assert(s.drop_last().push(s.last()) =~= s);
    }
}

proof fn lemma_after_last_dot_suffix(s: Seq<char>, idx: int)
    requires
        0 <= idx < s.len(),
        s[idx] == '.',
        forall|i: int| idx < i < s.len() ==> s[i] != '.',
    ensures
        after_last_dot(s) == s.skip(idx + 1),
    decreases s.len(),
{
    if idx == s.len() - 1 {
        assert(s.skip(idx + 1) =~= Seq::<char>::empty());
    } else {
        lemma_after_last_dot_suffix(s.drop_last(), idx);
        assert(s.drop_last().skip(idx + 1).push(s.last()) =~= s.skip(idx + 1));
    }
}

/// The part of a dotted access path after its last dot: the bare
/// variable name.
pub fn var_name<'a>(name: &'a str) -> (r: &'a str)
    ensures
        r@ == after_last_dot(name@),
{
    let n = name.unicode_len();
    let mut j: usize = n;
    while j > 0
        invariant
            j <= n,
            n == name@.len(),
            forall|i: int| j <= i < n ==> name@[i] != '.',
        decreases j,
    {
        if name.get_char(j - 1) == '.' {
            let r = name.substring_char(j, n);
            proof {
                lemma_after_last_dot_suffix(name@, j - 1);
                assert(r@ =~= name@.skip(j as int));
            }
            return r;
        }
        j = j - 1;
    }
    proof {
        lemma_after_last_dot_no_dot(name@);
        assert(name@.subrange(0, n as int) =~= name@);
    }
    name
}

} // verus!
