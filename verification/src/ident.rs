//! User and element identifiers.
//!
//! An identifier is a 128-bit value; on the wire it appears as the usual
//! hyphenated lowercase hexadecimal string (8-4-4-4-12 digits).

use vstd::prelude::*;
use vstd::arithmetic::div_mod::{lemma_div_denominator, lemma_fundamental_div_mod};
use crate::color::push_char;
use crate::digits::{
    digit_char, digit_string, digit_val, e_hex_fixed, is_digit_b, lemma_digit_char_val,
    lemma_digits_index, lemma_digits_len, lemma_digits_mod, lemma_digits_split,
    lemma_npow_adds, lemma_npow_increases, lemma_npow_pos, lemma_parse_fixed_bound,
    lemma_parse_fixed_digits, npow, parse_fixed, digit_char_exec,
};

verus! {

/// The wire text of an identifier: 32 lowercase hexadecimal digits in
/// groups of 8, 4, 4, 4 and 12, separated by hyphens.
pub open spec fn uuid_seq(u: u128) -> Seq<char> {
    let d = digit_string(u as nat, 32, 16);
    d.subrange(0, 8) + seq!['-'] + d.subrange(8, 12) + seq!['-'] + d.subrange(12, 16)
        + seq!['-'] + d.subrange(16, 20) + seq!['-'] + d.subrange(20, 32)
}

/// Parses an identifier at `i`: five hyphen-separated lowercase
/// hexadecimal groups, 36 characters in all.
pub open spec fn p_uuid(s: Seq<char>, i: int) -> Option<(u128, int)> {
    match parse_fixed(s, i, 8, 0, 16) {
        None => None,
        Some((a1, j1)) => if j1 < s.len() && s[j1] == '-' {
            match parse_fixed(s, j1 + 1, 4, a1, 16) {
                None => None,
                Some((a2, j2)) => if j2 < s.len() && s[j2] == '-' {
                    match parse_fixed(s, j2 + 1, 4, a2, 16) {
                        None => None,
                        Some((a3, j3)) => if j3 < s.len() && s[j3] == '-' {
                            match parse_fixed(s, j3 + 1, 4, a3, 16) {
                                None => None,
                                Some((a4, j4)) => if j4 < s.len() && s[j4] == '-' {
                                    match parse_fixed(s, j4 + 1, 12, a4, 16) {
                                        None => None,
                                        Some((a5, j5)) => if a5 <= u128::MAX as nat {
                                            Some((a5 as u128, j5))
                                        } else {
                                            None
                                        },
                                    }
                                } else {
                                    None
                                },
                            }
                        } else {
                            None
                        },
                    }
                } else {
                    None
                },
            }
        } else {
            None
        },
    }
}

/// Concrete powers of sixteen used for identifier bounds.
proof fn lemma_npow16_32()
    ensures
        npow(16, 32) == u128::MAX as nat + 1,
{
    assert(npow(16, 0) == 1);
    assert(npow(16, 1) == 16);
    lemma_npow_adds(16, 1, 1);
    assert(npow(16, 2) == 256);
    lemma_npow_adds(16, 2, 2);
    assert(npow(16, 4) == 0x10000);
    lemma_npow_adds(16, 4, 4);
    assert(npow(16, 8) == 0x1_0000_0000);
    lemma_npow_adds(16, 8, 8);
    assert(npow(16, 16) == 0x1_0000_0000_0000_0000);
    lemma_npow_adds(16, 16, 16);
    assert(npow(16, 32) == 0x1_0000_0000_0000_0000_0000_0000_0000_0000);
}

/// Digits `a..b` of the 32-digit string of `n` print the middle group
/// `(n / 16^(32-b)) mod 16^(b-a)`.
proof fn lemma_digit_group(n: nat, a: int, b: int)
    requires
        0 <= a <= b <= 32,
        n < npow(16, 32),
    ensures
        (n / npow(16, (32 - b) as nat)) % npow(16, (b - a) as nat) < npow(16, (b - a) as nat),
        forall|j: int| 0 <= j < b - a ==> digit_string(n, 32, 16)[a + j]
            == #[trigger] digit_string(
                (n / npow(16, (32 - b) as nat)) % npow(16, (b - a) as nat),
                (b - a) as nat,
                16,
            )[j],
{
    let x = n / npow(16, (32 - b) as nat);
    let m = x % npow(16, (b - a) as nat);
    lemma_npow_pos(16, (32 - b) as nat);
    lemma_npow_pos(16, (b - a) as nat);
    lemma_digits_len(n, 32, 16);
    lemma_digits_len(x, b as nat, 16);
    lemma_digits_len(m, (b - a) as nat, 16);
    lemma_digits_len(x, (b - a) as nat, 16);
    assert(m < npow(16, (b - a) as nat)) by {
        lemma_fundamental_div_mod(x as int, npow(16, (b - a) as nat) as int);
    }
    // the top b digits of n print x
    lemma_digits_split(n, 32, (32 - b) as nat, 16);
    // the low (b - a) digits of x print x mod 16^(b-a)
    lemma_digits_split(x, b as nat, (b - a) as nat, 16);
    lemma_digits_mod(x, (b - a) as nat, 16);
    assert forall|j: int| 0 <= j < b - a implies digit_string(n, 32, 16)[a + j]
        == #[trigger] digit_string(m, (b - a) as nat, 16)[j] by {
        assert(digit_string(n, 32, 16).subrange(0, b)[a + j] == digit_string(n, 32, 16)[a + j]);
        assert(digit_string(x, b as nat, 16)[a + j]
            == digit_string(x, b as nat, 16).subrange(b - (b - a), b)[j]);
    }
}

/// Folding the next digit group onto the running value steps the running
/// value from `n / 16^(32-c1)` to `n / 16^(32-c2)`.
proof fn lemma_acc_step(n: nat, c1: int, c2: int)
    requires
        0 <= c1 <= c2 <= 32,
    ensures
        (n / npow(16, (32 - c1) as nat)) * npow(16, (c2 - c1) as nat)
            + (n / npow(16, (32 - c2) as nat)) % npow(16, (c2 - c1) as nat)
            == n / npow(16, (32 - c2) as nat),
{
    let p_low = npow(16, (32 - c2) as nat);
    let p_g = npow(16, (c2 - c1) as nat);
    let x = n / p_low;
    lemma_npow_pos(16, (32 - c2) as nat);
    lemma_npow_pos(16, (c2 - c1) as nat);
    lemma_npow_adds(16, (32 - c2) as nat, (c2 - c1) as nat);
    assert(npow(16, (32 - c1) as nat) == p_low * p_g);
    lemma_div_denominator(n as int, p_low as int, p_g as int);
    assert(n / npow(16, (32 - c1) as nat) == x / p_g);
    lemma_fundamental_div_mod(x as int, p_g as int);
    assert((x / p_g) * p_g + x % p_g == x) by (nonlinear_arith)
        requires x == p_g * (x / p_g) + x % p_g;
}

/// Reading the 36-character wire text of an identifier gives back the
/// identifier and lands just past it.
pub proof fn lemma_p_uuid_seq(s: Seq<char>, i: int, u: u128)
    requires
        0 <= i,
        i + 36 <= s.len(),
        forall|j: int| 0 <= j < 36 ==> s[i + j] == uuid_seq(u)[j],
    ensures
        p_uuid(s, i) == Some((u, i + 36)),
{
    let n = u as nat;
    let d = digit_string(n, 32, 16);
    lemma_digits_len(n, 32, 16);
    lemma_npow16_32();
    assert(n < npow(16, 32));
    assert(uuid_seq(u).len() == 36);
    // characters by region
    assert forall|j: int| 0 <= j < 8 implies uuid_seq(u)[j] == d[j] by {}
    assert(uuid_seq(u)[8] == '-');
    assert forall|j: int| 9 <= j < 13 implies uuid_seq(u)[j] == d[j - 1] by {}
    assert(uuid_seq(u)[13] == '-');
    assert forall|j: int| 14 <= j < 18 implies uuid_seq(u)[j] == d[j - 2] by {}
    assert(uuid_seq(u)[18] == '-');
    assert forall|j: int| 19 <= j < 23 implies uuid_seq(u)[j] == d[j - 3] by {}
    assert(uuid_seq(u)[23] == '-');
    assert forall|j: int| 24 <= j < 36 implies uuid_seq(u)[j] == d[j - 4] by {}
    // running values after 0, 8, 12, 16, 20 and 32 digits
    let v0 = n / npow(16, 32);
    let v1 = n / npow(16, 24);
    let v2 = n / npow(16, 20);
    let v3 = n / npow(16, 16);
    let v4 = n / npow(16, 12);
    let v5 = n / npow(16, 0);
    assert(v0 == 0) by {
        lemma_fundamental_div_mod(n as int, npow(16, 32) as int);
    }
    assert(v5 == n) by (nonlinear_arith)
        requires npow(16, 0) == 1 && v5 == n / npow(16, 0);
    // group 1: digits 0..8 at characters i..i+8
    lemma_digit_group(n, 0, 8);
    let m1 = (n / npow(16, 24)) % npow(16, 8);
    assert forall|j: int| 0 <= j < 8 implies s[i + j]
        == #[trigger] digit_string(m1, 8, 16)[j] by {
        assert(s[i + j] == uuid_seq(u)[j]);
        assert(digit_string(n, 32, 16)[0 + j] == digit_string(m1, 8, 16)[j]);
    }
    lemma_parse_fixed_digits(s, i, 8, 0, 16, m1);
    lemma_acc_step(n, 0, 8);
    assert(0 * npow(16, 8) + m1 == v0 * npow(16, 8) + m1) by (nonlinear_arith)
        requires v0 == 0;
    assert(parse_fixed(s, i, 8, 0, 16) == Some((v1, i + 8)));
    assert(s[i + 8] == '-');
    // group 2: digits 8..12 at characters i+9..i+13
    lemma_digit_group(n, 8, 12);
    let m2 = (n / npow(16, 20)) % npow(16, 4);
    assert forall|j: int| 0 <= j < 4 implies s[i + 9 + j]
        == #[trigger] digit_string(m2, 4, 16)[j] by {
        assert(s[i + (9 + j)] == uuid_seq(u)[9 + j]);
        assert(digit_string(n, 32, 16)[8 + j] == digit_string(m2, 4, 16)[j]);
    }
    lemma_parse_fixed_digits(s, i + 9, 4, v1, 16, m2);
    lemma_acc_step(n, 8, 12);
    assert(parse_fixed(s, i + 9, 4, v1, 16) == Some((v2, i + 13)));
    assert(s[i + 13] == '-');
    // group 3: digits 12..16 at characters i+14..i+18
    lemma_digit_group(n, 12, 16);
    let m3 = (n / npow(16, 16)) % npow(16, 4);
    assert forall|j: int| 0 <= j < 4 implies s[i + 14 + j]
        == #[trigger] digit_string(m3, 4, 16)[j] by {
        assert(s[i + (14 + j)] == uuid_seq(u)[14 + j]);
        assert(digit_string(n, 32, 16)[12 + j] == digit_string(m3, 4, 16)[j]);
    }
    lemma_parse_fixed_digits(s, i + 14, 4, v2, 16, m3);
    lemma_acc_step(n, 12, 16);
    assert(parse_fixed(s, i + 14, 4, v2, 16) == Some((v3, i + 18)));
    assert(s[i + 18] == '-');
    // group 4: digits 16..20 at characters i+19..i+23
    lemma_digit_group(n, 16, 20);
    let m4 = (n / npow(16, 12)) % npow(16, 4);
    assert forall|j: int| 0 <= j < 4 implies s[i + 19 + j]
        == #[trigger] digit_string(m4, 4, 16)[j] by {
        assert(s[i + (19 + j)] == uuid_seq(u)[19 + j]);
        assert(digit_string(n, 32, 16)[16 + j] == digit_string(m4, 4, 16)[j]);
    }
    lemma_parse_fixed_digits(s, i + 19, 4, v3, 16, m4);
    lemma_acc_step(n, 16, 20);
    assert(parse_fixed(s, i + 19, 4, v3, 16) == Some((v4, i + 23)));
    assert(s[i + 23] == '-');
    // group 5: digits 20..32 at characters i+24..i+36
    lemma_digit_group(n, 20, 32);
    let m5 = (n / npow(16, 0)) % npow(16, 12);
    assert forall|j: int| 0 <= j < 12 implies s[i + 24 + j]
        == #[trigger] digit_string(m5, 12, 16)[j] by {
        assert(s[i + (24 + j)] == uuid_seq(u)[24 + j]);
        assert(digit_string(n, 32, 16)[20 + j] == digit_string(m5, 12, 16)[j]);
    }
    lemma_parse_fixed_digits(s, i + 24, 12, v4, 16, m5);
    lemma_acc_step(n, 20, 32);
    assert(parse_fixed(s, i + 24, 12, v4, 16) == Some((n, i + 36)));
}

/// Appends the 36-character wire text of `u` to `out`.
pub fn fmt_uuid(u: u128, out: &mut String)
    ensures
        final(out)@ == old(out)@ + uuid_seq(u),
{
    let ghost n = u as nat;
    let ghost d = digit_string(n, 32, 16);
    proof {
        lemma_digits_len(n, 32, 16);
    }
    // collect the 32 digits, least significant first
    let mut rev: Vec<char> = Vec::new();
    let mut rem: u128 = u;
    let mut c: usize = 0;
    proof {
        assert(npow(16, 0) == 1);
        assert(n / 1 == n) by (nonlinear_arith);
    }
    while c < 32
        invariant
            c <= 32,
            rev@.len() == c,
            rem as nat == n / npow(16, c as nat),
            forall|j: int| 0 <= j < c ==> rev@[j]
                == digit_char(((n / npow(16, j as nat)) % 16) as nat),
        decreases 32 - c,
    {
        proof {
            lemma_npow_pos(16, c as nat);
            lemma_div_denominator(n as int, npow(16, c as nat) as int, 16);
            assert(npow(16, (c + 1) as nat) == 16 * npow(16, c as nat));
        }
        rev.push(digit_char_exec((rem % 16) as u64));
        rem = rem / 16;
        c = c + 1;
    }
    let ghost start = out@;
    // digits 0..8
    append_digit_run(u, &rev, out, 0, 8);
    push_char(out, '-');
    append_digit_run(u, &rev, out, 8, 12);
    push_char(out, '-');
    append_digit_run(u, &rev, out, 12, 16);
    push_char(out, '-');
    append_digit_run(u, &rev, out, 16, 20);
    push_char(out, '-');
    append_digit_run(u, &rev, out, 20, 32);
    proof {
        assert(out@ =~= start + uuid_seq(u));
    }
}

/// Appends digits `from..to` (most significant first) of the 32-digit
/// string of `u`, given the digits collected least significant first.
fn append_digit_run(u: u128, rev: &Vec<char>, out: &mut String, from: usize, to: usize)
    requires
        from <= to <= 32,
        rev@.len() == 32,
        forall|j: int| 0 <= j < 32 ==> rev@[j]
            == digit_char(((u as nat / npow(16, j as nat)) % 16) as nat),
    ensures
        final(out)@ == old(out)@ + digit_string(u as nat, 32, 16).subrange(
            from as int,
            to as int,
        ),
{
    let ghost n = u as nat;
    let ghost d = digit_string(n, 32, 16);
    proof {
        lemma_digits_len(n, 32, 16);
    }
    let ghost start = out@;
    let mut j: usize = from;
    while j < to
        invariant
            from <= j <= to <= 32,
            rev@.len() == 32,
            forall|jj: int| 0 <= jj < 32 ==> rev@[jj]
                == digit_char(((n / npow(16, jj as nat)) % 16) as nat),
            d == digit_string(n, 32, 16),
            n == u as nat,
            d.len() == 32,
            out@.len() == start.len() + (j - from),
            forall|jj: int| 0 <= jj < start.len() ==> out@[jj] == start[jj],
            forall|jj: int| from <= jj < j ==> out@[start.len() + (jj - from)] == d[jj],
        decreases to - j,
    {
        proof {
            lemma_digits_index(n, 32, 16, j as int);
        }
        push_char(out, rev[31 - j]);
        j = j + 1;
    }
    proof {
        assert(out@ =~= start + d.subrange(from as int, to as int));
    }
}

/// The wire text of an identifier as a fresh string.
pub fn uuid_string(u: u128) -> (r: String)
    ensures
        r@ == uuid_seq(u),
{
    let mut out = String::new();
    fmt_uuid(u, &mut out);
    proof {
        assert(out@ =~= uuid_seq(u));
    }
    out
}

/// Parses an identifier at `i`, returning it and the position just past
/// its 36 characters.
pub fn e_uuid(s: &Vec<char>, i: usize) -> (r: Option<(u128, usize)>)
    requires
        i <= s@.len(),
    ensures
        match r {
            Some((v, j)) => p_uuid(s@, i as int) == Some((v, j as int)) && i <= j <= s@.len(),
            None => p_uuid(s@, i as int) is None,
        },
{
    proof {
        lemma_npow16_32();
        assert(npow(16, 8) * npow(16, 4) == npow(16, 12)) by {
            lemma_npow_adds(16, 8, 4);
        }
        assert(npow(16, 12) * npow(16, 4) == npow(16, 16)) by {
            lemma_npow_adds(16, 12, 4);
        }
        assert(npow(16, 16) * npow(16, 4) == npow(16, 20)) by {
            lemma_npow_adds(16, 16, 4);
        }
        assert(npow(16, 20) * npow(16, 12) == npow(16, 32)) by {
            lemma_npow_adds(16, 20, 12);
        }
        lemma_npow_increases(16, 8, 32);
        lemma_npow_increases(16, 12, 32);
        lemma_npow_increases(16, 16, 32);
        lemma_npow_increases(16, 20, 32);
        assert(1 * npow(16, 8) <= npow(16, 32)) by (nonlinear_arith)
            requires npow(16, 8) <= npow(16, 32);
    }
    let g1 = match e_hex_fixed(s, i, 8, 0) {
        None => {
            return None;
        },
        Some(g) => g,
    };
    proof {
        lemma_parse_fixed_bound(s@, i as int, 8, 0, 16);
        assert((g1.0 as nat + 1) * npow(16, 4) <= npow(16, 12)) by (nonlinear_arith)
            requires
                g1.0 as nat + 1 <= npow(16, 8),
                npow(16, 8) * npow(16, 4) == npow(16, 12),
                npow(16, 4) >= 0,
        ;
    }
    if !(g1.1 < s.len() && s[g1.1] == '-') {
        return None;
    }
    let g2 = match e_hex_fixed(s, g1.1 + 1, 4, g1.0) {
        None => {
            return None;
        },
        Some(g) => g,
    };
    proof {
        lemma_parse_fixed_bound(s@, g1.1 as int + 1, 4, g1.0 as nat, 16);
        assert((g2.0 as nat + 1) * npow(16, 4) <= npow(16, 16)) by (nonlinear_arith)
            requires
                g2.0 as nat + 1 <= (g1.0 as nat + 1) * npow(16, 4),
                (g1.0 as nat + 1) * npow(16, 4) <= npow(16, 12),
                npow(16, 12) * npow(16, 4) == npow(16, 16),
                npow(16, 4) >= 1,
        ;
    }
    if !(g2.1 < s.len() && s[g2.1] == '-') {
        return None;
    }
    let g3 = match e_hex_fixed(s, g2.1 + 1, 4, g2.0) {
        None => {
            return None;
        },
        Some(g) => g,
    };
    proof {
        lemma_parse_fixed_bound(s@, g2.1 as int + 1, 4, g2.0 as nat, 16);
        assert((g3.0 as nat + 1) * npow(16, 4) <= npow(16, 20)) by (nonlinear_arith)
            requires
                g3.0 as nat + 1 <= (g2.0 as nat + 1) * npow(16, 4),
                (g2.0 as nat + 1) * npow(16, 4) <= npow(16, 16),
                npow(16, 16) * npow(16, 4) == npow(16, 20),
                npow(16, 4) >= 1,
        ;
    }
    if !(g3.1 < s.len() && s[g3.1] == '-') {
        return None;
    }
    let g4 = match e_hex_fixed(s, g3.1 + 1, 4, g3.0) {
        None => {
            return None;
        },
        Some(g) => g,
    };
    proof {
        lemma_parse_fixed_bound(s@, g3.1 as int + 1, 4, g3.0 as nat, 16);
        assert((g4.0 as nat + 1) * npow(16, 12) <= npow(16, 32)) by (nonlinear_arith)
            requires
                g4.0 as nat + 1 <= (g3.0 as nat + 1) * npow(16, 4),
                (g3.0 as nat + 1) * npow(16, 4) <= npow(16, 20),
                npow(16, 20) * npow(16, 12) == npow(16, 32),
                npow(16, 12) >= 1,
        ;
    }
    if !(g4.1 < s.len() && s[g4.1] == '-') {
        return None;
    }
    let g5 = match e_hex_fixed(s, g4.1 + 1, 12, g4.0) {
        None => {
            return None;
        },
        Some(g) => g,
    };
    Some((g5.0, g5.1))
}

/// Draws a fresh random identifier.
///
/// Relies on `uuid::Uuid::new_v4` and `uuid::Uuid::as_u128`: a freshly
/// drawn random version-4 identifier, returned as its 128-bit value.
/// Nothing is promised of the value: it is random.
#[verifier::external_body]
pub(crate) fn fresh_uuid() -> u128 {
    uuid::Uuid::new_v4().as_u128()
}

} // verus!
