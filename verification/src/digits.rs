//! Digit strings: printing and parsing of numbers in base 10 and 16.
//!
//! Numbers appear on the wire as decimal literals (canvas ids, lengths)
//! and as fixed-width lowercase hexadecimal runs (inside identifiers).
//! The spec-level printers and parsers here come with round-trip lemmas
//! that the wire codec builds on.

use vstd::prelude::*;
use vstd::arithmetic::div_mod::{
    lemma_div_denominator, lemma_fundamental_div_mod, lemma_mod_breakdown,
};

verus! {

/// `b` to the power `e`, over naturals.
pub open spec fn npow(b: nat, e: nat) -> nat
    decreases e,
{
    if e == 0 {
        1
    } else {
        b * npow(b, (e - 1) as nat)
    }
}

pub proof fn lemma_npow_pos(b: nat, e: nat)
    requires
        b >= 1,
    ensures
        npow(b, e) >= 1,
    decreases e,
{
    if e > 0 {
        lemma_npow_pos(b, (e - 1) as nat);
        assert(b * npow(b, (e - 1) as nat) >= 1 * npow(b, (e - 1) as nat)) by (nonlinear_arith)
            requires b >= 1 && npow(b, (e - 1) as nat) >= 1;
    }
}

/// The character for a digit value below sixteen, lowercase.
pub open spec fn digit_char(d: nat) -> char {
    if d == 0 { '0' } else if d == 1 { '1' } else if d == 2 { '2' } else if d == 3 { '3' }
    else if d == 4 { '4' } else if d == 5 { '5' } else if d == 6 { '6' } else if d == 7 { '7' }
    else if d == 8 { '8' } else if d == 9 { '9' } else if d == 10 { 'a' } else if d == 11 { 'b' }
    else if d == 12 { 'c' } else if d == 13 { 'd' } else if d == 14 { 'e' } else { 'f' }
}

/// The value of a digit character: `0`..`9` or lowercase `a`..`f`.
pub open spec fn digit_val(c: char) -> nat {
    if 48 <= c as int && c as int <= 57 {
        (c as int - 48) as nat
    } else {
        (c as int - 87) as nat
    }
}

/// Whether `c` is a digit of base `b` (digits above nine lowercase).
pub open spec fn is_digit_b(c: char, b: nat) -> bool {
    ||| (48 <= c as int && c as int <= 57 && c as int - 48 < b)
    ||| (97 <= c as int && c as int <= 102 && c as int - 87 < b)
}

pub proof fn lemma_digit_char_val(d: nat, b: nat)
    requires
        d < b <= 16,
    ensures
        is_digit_b(digit_char(d), b),
        digit_val(digit_char(d)) == d,
{
}

/// The `k` lowest base-`b` digits of `u`, most significant first.
pub open spec fn digit_string(u: nat, k: nat, b: nat) -> Seq<char>
    decreases k,
{
    if k == 0 || b < 2 {
        Seq::empty()
    } else {
        digit_string(u / b, (k - 1) as nat, b).push(digit_char(u % b))
    }
}

pub proof fn lemma_digits_len(u: nat, k: nat, b: nat)
    requires
        b >= 2,
    ensures
        digit_string(u, k, b).len() == k,
    decreases k,
{
    if k > 0 {
        lemma_digits_len(u / b, (k - 1) as nat, b);
    }
}

/// The digit string of `u` only depends on `u` modulo `b^k`.
pub proof fn lemma_digits_mod(u: nat, k: nat, b: nat)
    requires
        b >= 2,
    ensures
        digit_string(u % npow(b, k), k, b) =~= digit_string(u, k, b),
    decreases k,
{
    lemma_digits_len(u, k, b);
    lemma_digits_len(u % npow(b, k), k, b);
    if k > 0 {
        let p = npow(b, (k - 1) as nat);
        lemma_npow_pos(b, (k - 1) as nat);
        let m = u % npow(b, k);
        lemma_mod_breakdown(u as int, b as int, p as int);
        assert(m == b * ((u / b) % p) + u % b);
        let q = (u / b) % p;
        let r = u % b;
        assert(m / b == q && m % b == r) by (nonlinear_arith)
            requires m == b * q + r && 0 <= r < b && b >= 2 && q >= 0;
        lemma_digits_mod(u / b, (k - 1) as nat, b);
    }
}

/// Splitting a digit string: the top `k - k2` digits print `u / b^k2`
/// and the low `k2` digits print `u` (modulo `b^k2`).
pub proof fn lemma_digits_split(u: nat, k: nat, k2: nat, b: nat)
    requires
        b >= 2,
        k2 <= k,
    ensures
        digit_string(u, k, b).subrange(0, k - k2) =~= digit_string(u / npow(b, k2), (k - k2) as nat, b),
        digit_string(u, k, b).subrange(k - k2, k as int) =~= digit_string(u, k2, b),
    decreases k2,
{
    lemma_digits_len(u, k, b);
    lemma_digits_len(u / npow(b, k2), (k - k2) as nat, b);
    lemma_digits_len(u, k2, b);
    if k2 == 0 {
        assert(u / 1 == u) by (nonlinear_arith);
    } else {
        let a = digit_string(u / b, (k - 1) as nat, b);
        lemma_digits_len(u / b, (k - 1) as nat, b);
        lemma_digits_split(u / b, (k - 1) as nat, (k2 - 1) as nat, b);
        let p1 = npow(b, (k2 - 1) as nat);
        lemma_npow_pos(b, (k2 - 1) as nat);
        lemma_div_denominator(u as int, b as int, p1 as int);
        assert((u / b) / p1 == u / (b * p1));
        assert(digit_string(u, k, b).subrange(0, k - k2) =~= a.subrange(0, (k - 1) - (k2 - 1)));
        assert(digit_string(u, k, b).subrange(k - k2, k as int) =~=
            a.subrange((k - 1) - (k2 - 1), (k - 1) as int).push(digit_char(u % b)));
    }
}

/// Parses exactly `k` base-`b` digits starting at `i`, folding them onto
/// `acc`; `None` when a non-digit or the end of input intervenes.
pub open spec fn parse_fixed(s: Seq<char>, i: int, k: nat, acc: nat, b: nat) -> Option<(nat, int)>
    decreases k,
{
    if k == 0 {
        Some((acc, i))
    } else if 0 <= i < s.len() && is_digit_b(s[i], b) {
        parse_fixed(s, i + 1, (k - 1) as nat, acc * b + digit_val(s[i]), b)
    } else {
        None
    }
}

/// Parsing `k` printed digits of `u` folds `u` onto `acc`.
pub proof fn lemma_parse_fixed_digits(s: Seq<char>, i: int, k: nat, acc: nat, b: nat, u: nat)
    requires
        2 <= b <= 16,
        0 <= i,
        i + k <= s.len(),
        u < npow(b, k),
        forall|j: int| 0 <= j < k ==> s[i + j] == digit_string(u, k, b)[j],
    ensures
        parse_fixed(s, i, k, acc, b) == Some(((acc * npow(b, k) + u) as nat, i + k)),
    decreases k,
{
    lemma_digits_len(u, k, b);
    if k == 0 {
        assert(u == 0);
        assert(acc * 1 + 0 == acc) by (nonlinear_arith);
    } else {
        let p = npow(b, (k - 1) as nat);
        lemma_npow_pos(b, (k - 1) as nat);
        // the first digit is u / b^(k-1)
        lemma_digits_split(u, k, (k - 1) as nat, b);
        let d0 = u / p;
        assert(d0 < b) by (nonlinear_arith)
            requires u < b * p && p >= 1 && b >= 2 && d0 == u / p;
        assert(digit_string(d0, 1, b) =~= seq![digit_char(d0 % b)]);
        assert(d0 % b == d0) by (nonlinear_arith)
            requires 0 <= d0 < b;
        assert(digit_string(u, k, b).subrange(0, 1)[0] == digit_char(d0));
        assert(s[i] == digit_char(d0));
        lemma_digit_char_val(d0, b);
        let acc2 = (acc * b + d0) as nat;
        let u2 = u % p;
        lemma_digits_mod(u, (k - 1) as nat, b);
        assert(digit_string(u, k, b).subrange(1, k as int) =~= digit_string(u2, (k - 1) as nat, b));
        assert forall|j: int| 0 <= j < k - 1 implies s[i + 1 + j] == #[trigger] digit_string(u2, (k - 1) as nat, b)[j] by {
            assert(s[i + (j + 1)] == digit_string(u, k, b)[j + 1]);
            assert(digit_string(u, k, b).subrange(1, k as int)[j] == digit_string(u, k, b)[j + 1]);
        }
        assert(u2 < p) by {
            lemma_fundamental_div_mod(u as int, p as int);
        }
        lemma_parse_fixed_digits(s, i + 1, (k - 1) as nat, acc2, b, u2);
        assert(u == p * (u / p) + u % p) by {
            lemma_fundamental_div_mod(u as int, p as int);
        }
        assert(acc2 * p + u2 == acc * npow(b, k) + u) by (nonlinear_arith)
            requires
                acc2 == acc * b + d0,
                npow(b, k) == b * p,
                d0 == u / p,
                u2 == u % p,
                u == p * (u / p) + u % p,
                p >= 1,
        ;
    }
}

/// A successful fixed-width parse lands `k` places further on and its
/// value refines `acc` by `k` digits.
pub proof fn lemma_parse_fixed_bound(s: Seq<char>, i: int, k: nat, acc: nat, b: nat)
    requires
        b >= 2,
        parse_fixed(s, i, k, acc, b) is Some,
    ensures
        parse_fixed(s, i, k, acc, b) matches Some((v, j))
            && j == i + k
            && acc * npow(b, k) <= v < (acc + 1) * npow(b, k),
    decreases k,
{
    lemma_npow_pos(b, k);
    if k == 0 {
        assert(acc * 1 == acc) by (nonlinear_arith);
    } else {
        let d = digit_val(s[i]);
        let acc2 = (acc * b + d) as nat;
        let p = npow(b, (k - 1) as nat);
        lemma_npow_pos(b, (k - 1) as nat);
        lemma_parse_fixed_bound(s, i + 1, (k - 1) as nat, acc2, b);
        assert(d < b);
        assert(acc * (b * p) <= acc2 * p && (acc2 + 1) * p <= (acc + 1) * (b * p)) by (nonlinear_arith)
            requires
                acc2 == acc * b + d,
                0 <= d < b,
                p >= 1,
                b >= 2,
        ;
    }
}

/// Parses a maximal (possibly empty) run of base-`b` digits starting at
/// `i`, folding them onto `acc`.
pub open spec fn parse_run(s: Seq<char>, i: int, acc: nat, b: nat) -> (nat, int)
    decreases s.len() - i,
{
    if 0 <= i < s.len() && is_digit_b(s[i], b) {
        parse_run(s, i + 1, acc * b + digit_val(s[i]), b)
    } else {
        (acc, i)
    }
}

/// Parsing a printed digit string of `u` followed by a non-digit folds
/// `u` onto `acc` and stops right after the digits.
pub proof fn lemma_parse_run_digits(s: Seq<char>, i: int, k: nat, acc: nat, b: nat, u: nat)
    requires
        2 <= b <= 16,
        0 <= i,
        i + k <= s.len(),
        u < npow(b, k),
        forall|j: int| 0 <= j < k ==> s[i + j] == digit_string(u, k, b)[j],
        i + k == s.len() || !is_digit_b(s[i + k], b),
    ensures
        parse_run(s, i, acc, b) == ((acc * npow(b, k) + u) as nat, i + k),
    decreases k,
{
    lemma_digits_len(u, k, b);
    if k == 0 {
        assert(u == 0);
        assert(acc * 1 + 0 == acc) by (nonlinear_arith);
    } else {
        let p = npow(b, (k - 1) as nat);
        lemma_npow_pos(b, (k - 1) as nat);
        lemma_digits_split(u, k, (k - 1) as nat, b);
        let d0 = u / p;
        assert(d0 < b) by (nonlinear_arith)
            requires u < b * p && p >= 1 && b >= 2 && d0 == u / p;
        assert(d0 % b == d0) by (nonlinear_arith)
            requires 0 <= d0 < b;
        assert(digit_string(d0, 1, b) =~= seq![digit_char(d0 % b)]);
        assert(digit_string(u, k, b).subrange(0, 1)[0] == digit_char(d0));
        assert(s[i] == digit_char(d0));
        lemma_digit_char_val(d0, b);
        let acc2 = (acc * b + d0) as nat;
        let u2 = u % p;
        lemma_digits_mod(u, (k - 1) as nat, b);
        assert(digit_string(u, k, b).subrange(1, k as int) =~= digit_string(u2, (k - 1) as nat, b));
        assert forall|j: int| 0 <= j < k - 1 implies s[i + 1 + j] == #[trigger] digit_string(u2, (k - 1) as nat, b)[j] by {
            assert(s[i + (j + 1)] == digit_string(u, k, b)[j + 1]);
            assert(digit_string(u, k, b).subrange(1, k as int)[j] == digit_string(u, k, b)[j + 1]);
        }
        assert(u2 < p) by {
            lemma_fundamental_div_mod(u as int, p as int);
        }
        lemma_parse_run_digits(s, i + 1, (k - 1) as nat, acc2, b, u2);
        assert(u == p * (u / p) + u % p) by {
            lemma_fundamental_div_mod(u as int, p as int);
        }
        assert(acc2 * p + u2 == acc * npow(b, k) + u) by (nonlinear_arith)
            requires
                acc2 == acc * b + d0,
                npow(b, k) == b * p,
                d0 == u / p,
                u2 == u % p,
                u == p * (u / p) + u % p,
                p >= 1,
        ;
    }
}

/// A digit run never shrinks the accumulated value and never moves
/// backwards.
pub proof fn lemma_parse_run_bound(s: Seq<char>, i: int, acc: nat, b: nat)
    requires
        b >= 2,
    ensures
        parse_run(s, i, acc, b).0 >= acc,
        parse_run(s, i, acc, b).1 >= i,
    decreases s.len() - i,
{
    if 0 <= i < s.len() && is_digit_b(s[i], b) {
        let acc2 = (acc * b + digit_val(s[i])) as nat;
        assert(acc2 >= acc) by (nonlinear_arith)
            requires acc2 == acc * b + digit_val(s[i]) && b >= 2;
        lemma_parse_run_bound(s, i + 1, acc2, b);
    }
}

/// The number of decimal digits of `n`.
pub open spec fn dec_len(n: nat) -> nat
    decreases n,
{
    if n < 10 {
        1
    } else {
        1 + dec_len(n / 10)
    }
}

/// The decimal literal of `n`, without leading zeros.
pub open spec fn dec_rep(n: nat) -> Seq<char> {
    digit_string(n, dec_len(n), 10)
}

pub proof fn lemma_dec_len_char(n: nat)
    ensures
        n < npow(10, dec_len(n)),
        dec_len(n) == 1 || npow(10, (dec_len(n) - 1) as nat) <= n,
    decreases n,
{
    if n < 10 {
    } else {
        lemma_dec_len_char(n / 10);
        let l = dec_len(n / 10);
        assert(n == 10 * (n / 10) + n % 10) by {
            lemma_fundamental_div_mod(n as int, 10);
        }
        assert(n < 10 * npow(10, l) && npow(10, (l - 1) as nat) * 10 <= n) by (nonlinear_arith)
            requires
                n == 10 * (n / 10) + n % 10,
                0 <= n % 10 < 10,
                n / 10 < npow(10, l),
                l == 1 || npow(10, (l - 1) as nat) <= n / 10,
                n >= 10,
                l >= 1,
                npow(10, (l - 1) as nat) >= 1,
                l == 1 ==> npow(10, (l - 1) as nat) == 1,
        {
        }
        lemma_npow_pos(10, (l - 1) as nat);
    }
}

pub proof fn lemma_npow_increases(b: nat, e1: nat, e2: nat)
    requires
        b >= 1,
        e1 <= e2,
    ensures
        npow(b, e1) <= npow(b, e2),
    decreases e2,
{
    if e1 < e2 {
        lemma_npow_increases(b, e1, (e2 - 1) as nat);
        lemma_npow_pos(b, (e2 - 1) as nat);
        assert(npow(b, (e2 - 1) as nat) <= b * npow(b, (e2 - 1) as nat)) by (nonlinear_arith)
            requires b >= 1 && npow(b, (e2 - 1) as nat) >= 1;
    }
}

pub proof fn lemma_npow_adds(b: nat, e1: nat, e2: nat)
    ensures
        npow(b, (e1 + e2) as nat) == npow(b, e1) * npow(b, e2),
    decreases e1,
{
    if e1 == 0 {
        assert(1 * npow(b, e2) == npow(b, e2)) by (nonlinear_arith);
    } else {
        lemma_npow_adds(b, (e1 - 1) as nat, e2);
        assert(b * (npow(b, (e1 - 1) as nat) * npow(b, e2)) == (b * npow(b, (e1 - 1) as nat))
            * npow(b, e2)) by (nonlinear_arith);
    }
}

/// Index formula for a digit string: position `j` holds digit
/// `u / b^(k-1-j) mod b`.
pub proof fn lemma_digits_index(u: nat, k: nat, b: nat, j: int)
    requires
        b >= 2,
        0 <= j < k,
    ensures
        digit_string(u, k, b)[j] == digit_char((u / npow(b, (k - 1 - j) as nat)) % b),
    decreases k,
{
    lemma_digits_len(u, k, b);
    lemma_digits_len(u / b, (k - 1) as nat, b);
    if j == k - 1 {
        assert(u / 1 == u) by (nonlinear_arith);
    } else {
        lemma_digits_index(u / b, (k - 1) as nat, b, j);
        let p = npow(b, (k - 2 - j) as nat);
        lemma_npow_pos(b, (k - 2 - j) as nat);
        lemma_div_denominator(u as int, b as int, p as int);
        assert((u / b) / p == u / (b * p));
    }
}

/// The parse of a printed decimal literal: the value and the position
/// just past it.
pub open spec fn p_dec(s: Seq<char>, i: int) -> Option<(nat, int)> {
    if 0 <= i < s.len() && is_digit_b(s[i], 10) {
        Some(parse_run(s, i, 0, 10))
    } else {
        None
    }
}

/// As `p_dec`, refusing values that do not fit in a `u64`.
pub open spec fn p_dec_u64(s: Seq<char>, i: int) -> Option<(u64, int)> {
    match p_dec(s, i) {
        Some((v, j)) => if v <= u64::MAX as nat {
            Some((v as u64, j))
        } else {
            None
        },
        None => None,
    }
}

/// Parsing a printed decimal literal followed by a non-digit yields the
/// printed value.
pub proof fn lemma_p_dec_rep(s: Seq<char>, i: int, n: nat)
    requires
        0 <= i,
        i + dec_len(n) <= s.len(),
        forall|j: int| 0 <= j < dec_len(n) ==> s[i + j] == dec_rep(n)[j],
        i + dec_len(n) == s.len() || !is_digit_b(s[i + dec_len(n)], 10),
    ensures
        p_dec(s, i) == Some((n, i + dec_len(n))),
{
    let k = dec_len(n);
    lemma_dec_len_char(n);
    lemma_digits_len(n, k, 10);
    lemma_digits_index(n, k, 10, 0);
    assert((n / npow(10, (k - 1) as nat)) % 10 < 10) by (nonlinear_arith);
    lemma_digit_char_val(((n / npow(10, (k - 1) as nat)) % 10) as nat, 10);
    assert forall|j: int| 0 <= j < k implies s[i + j] == #[trigger] digit_string(n, k, 10)[j] by {
        assert(s[i + j] == dec_rep(n)[j]);
    }
    assert(s[i + 0] == digit_string(n, k, 10)[0]);
    assert(is_digit_b(s[i], 10));
    lemma_parse_run_digits(s, i, k, 0, 10, n);
    assert(0 * npow(10, k) + n == n) by (nonlinear_arith);
}

/// Exec form of `digit_char`.
pub fn digit_char_exec(d: u64) -> (c: char)
    requires
        d < 16,
    ensures
        c == digit_char(d as nat),
{
    match d {
        0 => '0',
        1 => '1',
        2 => '2',
        3 => '3',
        4 => '4',
        5 => '5',
        6 => '6',
        7 => '7',
        8 => '8',
        9 => '9',
        10 => 'a',
        11 => 'b',
        12 => 'c',
        13 => 'd',
        14 => 'e',
        _ => 'f',
    }
}

/// Exec form of `digit_val` for valid digits.
pub fn digit_val_exec(c: char) -> (d: u64)
    requires
        is_digit_b(c, 16),
    ensures
        d as nat == digit_val(c),
        d < 16,
{
    let u = c as u32;
    if u <= 57 {
        (u - 48) as u64
    } else {
        (u - 87) as u64
    }
}

pub fn is_dec_digit_exec(c: char) -> (r: bool)
    ensures
        r == is_digit_b(c, 10),
{
    let u = c as u32;
    48 <= u && u <= 57
}

pub fn is_hex16_digit_exec(c: char) -> (r: bool)
    ensures
        r == is_digit_b(c, 16),
{
    let u = c as u32;
    (48 <= u && u <= 57) || (97 <= u && u <= 102)
}

/// Parses a decimal literal at `i`, returning its value and the position
/// just past it; `None` when no digit starts there or the value does not
/// fit in a `u64`.
pub fn e_dec_u64(s: &Vec<char>, i: usize) -> (r: Option<(u64, usize)>)
    requires
        i <= s@.len(),
    ensures
        match r {
            Some((v, j)) => p_dec_u64(s@, i as int) == Some((v, j as int)) && i <= j <= s@.len(),
            None => p_dec_u64(s@, i as int) is None,
        },
{
    if i >= s.len() || !is_dec_digit_exec(s[i]) {
        return None;
    }
    let mut cur: usize = i;
    let mut acc: u64 = 0;
    loop
        invariant
            i <= cur <= s@.len(),
            i < s@.len(),
            is_digit_b(s@[i as int], 10),
            parse_run(s@, i as int, 0, 10) == parse_run(s@, cur as int, acc as nat, 10),
        decreases s@.len() - cur,
    {
        if cur >= s.len() || !is_dec_digit_exec(s[cur]) {
            proof {
                assert(parse_run(s@, cur as int, acc as nat, 10) == (acc as nat, cur as int));
            }
            return Some((acc, cur));
        }
        let d = digit_val_exec(s[cur]);
        proof {
            assert(digit_val(s@[cur as int]) < 10);
        }
        if acc > (u64::MAX - d) / 10 {
            proof {
                let acc2 = (acc as nat) * 10 + digit_val(s@[cur as int]);
                assert(acc2 > u64::MAX as nat) by (nonlinear_arith)
                    requires
                        acc as nat > ((u64::MAX - d) as nat) / 10,
                        acc2 == (acc as nat) * 10 + d as nat,
                        d as nat == digit_val(s@[cur as int]),
                        d < 10,
                        ((u64::MAX - d) as nat) / 10 * 10 + ((u64::MAX - d) as nat) % 10
                            == (u64::MAX - d) as nat,
                        ((u64::MAX - d) as nat) % 10 < 10,
                ;
                assert(((u64::MAX - d) as nat) / 10 * 10 + ((u64::MAX - d) as nat) % 10
                    == (u64::MAX - d) as nat) by {
                    lemma_fundamental_div_mod((u64::MAX - d) as int, 10);
                }
                assert(parse_run(s@, cur as int, acc as nat, 10)
                    == parse_run(s@, cur as int + 1, acc2, 10));
                lemma_parse_run_bound(s@, cur as int + 1, acc2, 10);
            }
            return None;
        }
        proof {
            assert((acc as nat) * 10 + d as nat <= u64::MAX as nat) by (nonlinear_arith)
                requires
                    acc as nat <= ((u64::MAX - d) as nat) / 10,
                    d < 10,
                    ((u64::MAX - d) as nat) / 10 * 10 <= (u64::MAX - d) as nat,
            ;
            assert(((u64::MAX - d) as nat) / 10 * 10 <= (u64::MAX - d) as nat) by {
                lemma_fundamental_div_mod((u64::MAX - d) as int, 10);
            }
        }
        acc = acc * 10 + d;
        cur = cur + 1;
    }
}

/// Parses exactly `k` lowercase hexadecimal digits at `i`, folding them
/// onto `acc`.
pub fn e_hex_fixed(s: &Vec<char>, i: usize, k: usize, acc: u128) -> (r: Option<(u128, usize)>)
    requires
        i <= s@.len(),
        (acc as nat + 1) * npow(16, k as nat) <= u128::MAX as nat + 1,
    ensures
        match r {
            Some((v, j)) => parse_fixed(s@, i as int, k as nat, acc as nat, 16)
                == Some((v as nat, j as int)) && i <= j <= s@.len(),
            None => parse_fixed(s@, i as int, k as nat, acc as nat, 16) is None,
        },
    decreases k,
{
    if k == 0 {
        proof {
            assert((acc as nat) * 1 + 0 == acc as nat) by (nonlinear_arith);
        }
        Some((acc, i))
    } else if i < s.len() && is_hex16_digit_exec(s[i]) {
        let d = digit_val_exec(s[i]);
        proof {
            let p = npow(16, (k - 1) as nat);
            lemma_npow_pos(16, (k - 1) as nat);
            assert(((acc as nat) * 16 + d as nat + 1) * p <= u128::MAX as nat + 1
                && (acc as nat) * 16 + d as nat <= u128::MAX as nat) by (nonlinear_arith)
                requires
                    (acc as nat + 1) * (16 * p) <= u128::MAX as nat + 1,
                    d < 16,
                    p >= 1,
            ;
        }
        let acc2 = acc * 16 + d as u128;
        e_hex_fixed(s, i + 1, k - 1, acc2)
    } else {
        None
    }
}

proof fn lemma_div_small(n: nat, p: nat)
    requires
        p >= 1,
    ensures
        (n / p == 0) <==> n < p,
{
    lemma_fundamental_div_mod(n as int, p as int);
    if n / p == 0 {
        assert(n == p * (n / p) + n % p);
    } else {
        assert(n >= p * (n / p)) by (nonlinear_arith)
            requires n == p * (n / p) + n % p && n % p >= 0;
        assert(p * (n / p) >= p * 1) by (nonlinear_arith)
            requires n / p >= 1 && p >= 1;
    }
}

/// Appends the decimal literal of `n` to `out`.
pub fn fmt_u64_dec(n: u64, out: &mut String)
    ensures
        final(out)@ == old(out)@ + dec_rep(n as nat),
{
    let ghost nn = n as nat;
    if n == 0 {
        crate::color::push_char(out, '0');
        proof {
            assert(dec_len(0) == 1);
            lemma_digits_len(0, 1, 10);
            lemma_digits_index(0, 1, 10, 0);
            assert(npow(10, 0) == 1);
            assert(0nat / 1 == 0 && 0nat % 10 == 0) by (nonlinear_arith);
            assert(digit_string(0, 1, 10) =~= seq![digit_char(0)]);
            assert(digit_char(0) == '0');
            assert(dec_rep(0) =~= seq!['0']);
            assert(out@ =~= old(out)@ + dec_rep(nn));
        }
        return;
    }
    let mut rev: Vec<char> = Vec::new();
    let mut rem: u64 = n;
    proof {
        assert(npow(10, 0) == 1);
        assert(nn / 1 == nn) by (nonlinear_arith);
    }
    while rem > 0
        invariant
            nn >= 1,
            nn == n as nat,
            rem as nat == nn / npow(10, rev@.len() as nat),
            forall|j: int| 0 <= j < rev@.len() ==> rev@[j] == digit_char(
                ((nn / npow(10, j as nat)) % 10) as nat,
            ),
            rev@.len() >= 1 ==> nn / npow(10, (rev@.len() - 1) as nat) != 0,
        decreases rem,
    {
        let ghost c = rev@.len() as nat;
        proof {
            lemma_npow_pos(10, c);
            lemma_div_denominator(nn as int, npow(10, c) as int, 10);
            assert(npow(10, (c + 1) as nat) == 10 * npow(10, c));
            assert(nn / (npow(10, c) * 10) == nn / npow(10, (c + 1) as nat));
            assert((rem % 10) as nat == (nn / npow(10, c)) % 10);
        }
        rev.push(digit_char_exec(rem % 10));
        rem = rem / 10;
    }
    let len = rev.len();
    proof {
        let l = rev@.len() as nat;
        lemma_npow_pos(10, l);
        assert(l >= 1) by {
            if l == 0 {
                assert(nn / npow(10, 0) == nn);
            }
        }
        lemma_npow_pos(10, (l - 1) as nat);
        assert(nn / npow(10, l) == 0);
        lemma_div_small(nn, npow(10, l));
        assert(nn < npow(10, l));
        if l >= 2 {
            assert(nn / npow(10, (l - 1) as nat) != 0);
            lemma_div_small(nn, npow(10, (l - 1) as nat));
            assert(nn >= npow(10, (l - 1) as nat));
        }
        lemma_dec_len_char(nn);
        let dl = dec_len(nn);
        if l < dl {
            lemma_npow_increases(10, l, (dl - 1) as nat);
            assert(npow(10, l) <= npow(10, (dl - 1) as nat));
            assert(false);
        }
        if dl < l {
            lemma_npow_increases(10, dl, (l - 1) as nat);
            assert(npow(10, dl) <= npow(10, (l - 1) as nat));
            assert(l >= 2);
            assert(false);
        }
        assert(l == dl);
        lemma_digits_len(nn, dec_len(nn), 10);
    }
    let mut j: usize = 0;
    let ghost start = out@;
    while j < len
        invariant
            j <= len,
            len == rev@.len(),
            len == dec_len(nn),
            nn == n as nat,
            forall|w: int| 0 <= w < len ==> rev@[w] == digit_char(
                ((nn / npow(10, w as nat)) % 10) as nat,
            ),
            dec_rep(nn).len() == len,
            out@.len() == start.len() + j,
            forall|w: int| 0 <= w < start.len() ==> out@[w] == start[w],
            forall|w: int| 0 <= w < j ==> out@[start.len() + w] == dec_rep(nn)[w],
        decreases len - j,
    {
        proof {
            lemma_digits_index(nn, dec_len(nn), 10, j as int);
        }
        crate::color::push_char(out, rev[len - 1 - j]);
        j = j + 1;
    }
    proof {
        assert(out@ =~= start + dec_rep(nn));
    }
}

} // verus!
