//! The wire codec: canonical JSON text for commands and events.
//!
//! The codec is strict and canonical: objects are written with fixed
//! key order and no whitespace, numeric attributes are carried as their
//! original tokens, and identifiers appear in hyphenated lowercase
//! hexadecimal form. Strings are written with the quote, the backslash
//! and every control character escaped (the latter as `\u00XX`), so
//! every emitted frame is valid JSON; the parser additionally accepts
//! the short escapes `\/ \n \t \r \b \f` and `\uXXXX` sequences,
//! surrogate pairs included. Reading a frame the codec wrote gives back
//! the value that was written.

use vstd::prelude::*;
use crate::digits::{dec_rep, digit_char, digit_val, is_digit_b, lemma_p_dec_rep, p_dec_u64};
use crate::element::is_num_char;
use crate::ident::{lemma_p_uuid_seq, p_uuid, uuid_seq};

verus! {

/// One character of a string body, escaped if it needs it: the quote
/// and the backslash by a backslash, control characters as `\u00XX`.
pub open spec fn esc_char(c: char) -> Seq<char> {
    if c == '"' || c == '\\' {
        seq!['\\', c]
    } else if (c as u32) < 32 {
        seq![
            '\\',
            'u',
            '0',
            '0',
            digit_char(((c as u32) / 16) as nat),
            digit_char(((c as u32) % 16) as nat),
        ]
    } else {
        seq![c]
    }
}

/// The value of a hexadecimal digit of either case.
pub open spec fn hex_val_any(c: char) -> int {
    if 65 <= c as int && c as int <= 70 {
        c as int - 55
    } else {
        digit_val(c) as int
    }
}

/// The code point of four hexadecimal digits.
pub open spec fn hex4(s: Seq<char>, i: int) -> int {
    hex_val_any(s[i]) * 4096 + hex_val_any(s[i + 1]) * 256 + hex_val_any(s[i + 2]) * 16
        + hex_val_any(s[i + 3])
}

/// Whether the four characters at `i` are hexadecimal digits.
pub open spec fn hex4_ok(s: Seq<char>, i: int) -> bool {
    &&& i + 4 <= s.len()
    &&& crate::color::is_hex_digit(s[i])
    &&& crate::color::is_hex_digit(s[i + 1])
    &&& crate::color::is_hex_digit(s[i + 2])
    &&& crate::color::is_hex_digit(s[i + 3])
}

/// A string body with quote and backslash escaped.
pub open spec fn esc(s: Seq<char>) -> Seq<char>
    decreases s.len(),
{
    if s.len() == 0 {
        Seq::empty()
    } else {
        esc(s.drop_last()) + esc_char(s.last())
    }
}

/// A quoted, escaped string.
pub open spec fn ser_str(s: Seq<char>) -> Seq<char> {
    seq!['"'] + esc(s) + seq!['"']
}

/// A quoted identifier.
pub open spec fn ser_uuid_str(u: u128) -> Seq<char> {
    seq!['"'] + uuid_seq(u) + seq!['"']
}

/// `null`, or a quoted identifier.
pub open spec fn ser_opt_uuid(o: Option<u128>) -> Seq<char> {
    match o {
        Option::Some(u) => ser_uuid_str(u),
        Option::None => seq!['n', 'u', 'l', 'l'],
    }
}

/// A decimal number.
pub open spec fn ser_u16(n: u16) -> Seq<char> {
    dec_rep(n as nat)
}

/// Expects the exact literal `lit` at `i`.
pub open spec fn p_lit(s: Seq<char>, i: int, lit: Seq<char>) -> Option<int> {
    if 0 <= i && i + lit.len() <= s.len() && s.subrange(i, i + lit.len()) == lit {
        Option::Some(i + lit.len())
    } else {
        Option::None
    }
}

pub proof fn lemma_p_lit(s: Seq<char>, i: int, lit: Seq<char>)
    requires
        0 <= i,
        i + lit.len() <= s.len(),
        forall|j: int| 0 <= j < lit.len() ==> s[i + j] == lit[j],
    ensures
        p_lit(s, i, lit) == Option::Some(i + lit.len()),
{
    assert(s.subrange(i, i + lit.len()) =~= lit);
}

/// Parses a string body up to the closing quote, unescaping as it
/// goes: the short escapes, and `\uXXXX` with surrogate pairs.
pub open spec fn p_str_body(s: Seq<char>, i: int, acc: Seq<char>) -> Option<(Seq<char>, int)>
    decreases s.len() - i,
{
    if i < 0 || i >= s.len() {
        Option::None
    } else if s[i] == '"' {
        Option::Some((acc, i + 1))
    } else if s[i] == '\\' {
        if i + 1 >= s.len() {
            Option::None
        } else {
            let e = s[i + 1];
            if e == '"' || e == '\\' || e == '/' {
                p_str_body(s, i + 2, acc.push(e))
            } else if e == 'n' {
                p_str_body(s, i + 2, acc.push('\n'))
            } else if e == 't' {
                p_str_body(s, i + 2, acc.push('\t'))
            } else if e == 'r' {
                p_str_body(s, i + 2, acc.push('\r'))
            } else if e == 'b' {
                p_str_body(s, i + 2, acc.push('\u{8}'))
            } else if e == 'f' {
                p_str_body(s, i + 2, acc.push('\u{c}'))
            } else if e == 'u' {
                if hex4_ok(s, i + 2) {
                    let v = hex4(s, i + 2);
                    if 0xD800 <= v && v < 0xDC00 {
                        // a high surrogate must pair with a low one
                        if i + 12 <= s.len() && s[i + 6] == '\\' && s[i + 7] == 'u'
                            && hex4_ok(s, i + 8) {
                            let w = hex4(s, i + 8);
                            if 0xDC00 <= w && w < 0xE000 {
                                p_str_body(
                                    s,
                                    i + 12,
                                    acc.push(
                                        ((0x10000 + (v - 0xD800) * 0x400 + (w - 0xDC00)) as u32)
                                            as char,
                                    ),
                                )
                            } else {
                                Option::None
                            }
                        } else {
                            Option::None
                        }
                    } else if 0xDC00 <= v && v < 0xE000 {
                        Option::None
                    } else {
                        p_str_body(s, i + 6, acc.push((v as u32) as char))
                    }
                } else {
                    Option::None
                }
            } else {
                Option::None
            }
        }
    } else {
        p_str_body(s, i + 1, acc.push(s[i]))
    }
}

/// Parses a quoted string at `i`.
pub open spec fn p_str(s: Seq<char>, i: int) -> Option<(Seq<char>, int)> {
    if 0 <= i < s.len() && s[i] == '"' {
        p_str_body(s, i + 1, Seq::empty())
    } else {
        Option::None
    }
}

/// The escaped body seen from the front: the first character's escape,
/// then the rest.
proof fn lemma_esc_front(s: Seq<char>)
    requires
        s.len() > 0,
    ensures
        esc(s) == esc_char(s[0]) + esc(s.drop_first()),
    decreases s.len(),
{
    if s.len() == 1 {
        assert(s.drop_last() =~= Seq::<char>::empty());
        assert(s.drop_first() =~= Seq::<char>::empty());
        assert(esc(s) =~= esc_char(s[0]) + esc(s.drop_first()));
    } else {
        let t = s.drop_last();
        lemma_esc_front(t);
        assert(t[0] == s[0]);
        assert(s.drop_first().drop_last() =~= t.drop_first());
        assert(s.drop_first().last() == s.last());
        assert(esc(s.drop_first()) == esc(t.drop_first()) + esc_char(s.last()));
        assert(esc(s) =~= esc_char(s[0]) + esc(s.drop_first()));
    }
}

proof fn lemma_p_str_body(s: Seq<char>, i: int, acc: Seq<char>, body: Seq<char>)
    requires
        0 <= i,
        i + esc(body).len() + 1 <= s.len(),
        forall|j: int| 0 <= j < esc(body).len() ==> s[i + j] == esc(body)[j],
        s[i + esc(body).len()] == '"',
    ensures
        p_str_body(s, i, acc) == Option::Some((acc + body, i + esc(body).len() + 1)),
    decreases body.len(),
{
    if body.len() == 0 {
        assert(esc(body).len() == 0);
        assert(s[i] == '"');
        assert(acc + body =~= acc);
    } else {
        lemma_esc_front(body);
        let c = body[0];
        let e0 = esc_char(c);
        let rest = body.drop_first();
        assert(esc(body) == e0 + esc(rest));
        assert forall|j: int| 0 <= j < esc(rest).len() implies s[i + e0.len() + j]
            == esc(rest)[j] by {
            assert(s[i + (e0.len() + j)] == esc(body)[e0.len() + j]);
            assert(esc(body)[e0.len() + j] == esc(rest)[j]);
        }
        if c == '"' || c == '\\' {
            assert(s[i + 0] == esc(body)[0] && s[i + 1] == esc(body)[1]);
            assert(esc(body)[0] == '\\' && esc(body)[1] == c);
            assert(s[(i + 2) + esc(rest).len() as int] == '"') by {
                assert(s[i + (2 + esc(rest).len() as int)] == '"');
            }
            lemma_p_str_body(s, i + 2, acc.push(c), rest);
            assert(acc.push(c) + rest =~= acc + body);
        } else if (c as u32) < 32 {
            let cu = c as u32;
            let hi = ((c as u32) / 16) as nat;
            let lo = ((c as u32) % 16) as nat;
            assert(s[i + 0] == esc(body)[0] && s[i + 1] == esc(body)[1] && s[i + 2]
                == esc(body)[2] && s[i + 3] == esc(body)[3] && s[i + 4] == esc(body)[4] && s[i
                + 5] == esc(body)[5]);
            assert(esc(body)[0] == '\\' && esc(body)[1] == 'u' && esc(body)[2] == '0'
                && esc(body)[3] == '0' && esc(body)[4] == digit_char(hi) && esc(body)[5]
                == digit_char(lo));
            let ci = cu as int;
            vstd::arithmetic::div_mod::lemma_fundamental_div_mod(ci, 16);
            vstd::arithmetic::div_mod::lemma_mod_division_less_than_divisor(ci, 16);
            vstd::arithmetic::div_mod::lemma_div_pos_is_pos(ci, 16);
            assert(ci / 16 < 2) by (nonlinear_arith)
                requires
                    ci == 16 * (ci / 16) + ci % 16,
                    ci < 32,
                    0 <= ci % 16,
            ;
            assert(hi < 2 && lo < 16 && hi == ci / 16 && lo == ci % 16);
            crate::digits::lemma_digit_char_val(hi, 16);
            crate::digits::lemma_digit_char_val(lo, 16);
            assert(crate::color::is_hex_digit(s[i + 2]) && crate::color::is_hex_digit(
                s[i + 3],
            ) && crate::color::is_hex_digit(s[i + 4]) && crate::color::is_hex_digit(s[i + 5]));
            assert(hex4_ok(s, i + 2));
            assert(hex_val_any(s[i + 2]) == 0 && hex_val_any(s[i + 3]) == 0);
            assert(hex_val_any(s[i + 4]) == hi && hex_val_any(s[i + 5]) == lo);
            let v = hex4(s, i + 2);
            assert(v == ci);
            assert(0 <= v < 32);
            assert(((v as u32) as char) == c) by {
                assert(v as u32 == cu);
                vstd::utf8::char_u32_cast(c, cu);
            }
            assert(s[(i + 6) + esc(rest).len() as int] == '"') by {
                assert(s[i + (6 + esc(rest).len() as int)] == '"');
            }
            lemma_p_str_body(s, i + 6, acc.push(c), rest);
            assert(acc.push(c) + rest =~= acc + body);
        } else {
            assert(s[i + 0] == esc(body)[0]);
            assert(esc(body)[0] == c);
            assert(s[i] != '"' && s[i] != '\\');
            assert(s[(i + 1) + esc(rest).len() as int] == '"') by {
                assert(s[i + (1 + esc(rest).len() as int)] == '"');
            }
            lemma_p_str_body(s, i + 1, acc.push(c), rest);
            assert(acc.push(c) + rest =~= acc + body);
        }
    }
}

/// Reading a written string gives the string back.
pub proof fn lemma_p_str_ser(s: Seq<char>, i: int, body: Seq<char>)
    requires
        0 <= i,
        i + ser_str(body).len() <= s.len(),
        forall|j: int| 0 <= j < ser_str(body).len() ==> s[i + j] == ser_str(body)[j],
    ensures
        p_str(s, i) == Option::Some((body, i + ser_str(body).len())),
{
    assert(s[i + 0] == ser_str(body)[0]);
    assert(ser_str(body)[0] == '"');
    assert forall|j: int| 0 <= j < esc(body).len() implies s[i + 1 + j] == esc(body)[j] by {
        assert(s[i + (1 + j)] == ser_str(body)[1 + j]);
        assert(ser_str(body)[1 + j] == esc(body)[j]);
    }
    assert(s[i + 1 + esc(body).len() as int] == ser_str(body)[1 + esc(body).len() as int]);
    assert(ser_str(body)[1 + esc(body).len() as int] == '"');
    lemma_p_str_body(s, i + 1, Seq::empty(), body);
    assert(Seq::<char>::empty() + body =~= body);
}

/// Parses a quoted identifier at `i`.
pub open spec fn p_uuid_str(s: Seq<char>, i: int) -> Option<(u128, int)> {
    if 0 <= i < s.len() && s[i] == '"' {
        match p_uuid(s, i + 1) {
            Option::Some((u, j)) => if j < s.len() && s[j] == '"' {
                Option::Some((u, j + 1))
            } else {
                Option::None
            },
            Option::None => Option::None,
        }
    } else {
        Option::None
    }
}

/// Reading a written identifier gives it back.
pub proof fn lemma_p_uuid_str_ser(s: Seq<char>, i: int, u: u128)
    requires
        0 <= i,
        i + 38 <= s.len(),
        forall|j: int| 0 <= j < 38 ==> s[i + j] == ser_uuid_str(u)[j],
    ensures
        ser_uuid_str(u).len() == 38,
        p_uuid_str(s, i) == Option::Some((u, i + 38)),
{
    crate::digits::lemma_digits_len(u as nat, 32, 16);
    assert(uuid_seq(u).len() == 36);
    assert(s[i + 0] == ser_uuid_str(u)[0]);
    assert(ser_uuid_str(u)[0] == '"');
    assert forall|j: int| 0 <= j < 36 implies s[i + 1 + j] == uuid_seq(u)[j] by {
        assert(s[i + (1 + j)] == ser_uuid_str(u)[1 + j]);
        assert(ser_uuid_str(u)[1 + j] == uuid_seq(u)[j]);
    }
    lemma_p_uuid_seq(s, i + 1, u);
    assert(s[i + 37] == ser_uuid_str(u)[37]);
    assert(ser_uuid_str(u)[37] == '"');
}

/// Parses `null` or a quoted identifier at `i`.
pub open spec fn p_opt_uuid(s: Seq<char>, i: int) -> Option<(Option<u128>, int)> {
    if 0 <= i < s.len() && s[i] == 'n' {
        match p_lit(s, i, seq!['n', 'u', 'l', 'l']) {
            Option::Some(j) => Option::Some((Option::None, j)),
            Option::None => Option::None,
        }
    } else {
        match p_uuid_str(s, i) {
            Option::Some((u, j)) => Option::Some((Option::Some(u), j)),
            Option::None => Option::None,
        }
    }
}

pub proof fn lemma_p_opt_uuid_ser(s: Seq<char>, i: int, o: Option<u128>)
    requires
        0 <= i,
        i + ser_opt_uuid(o).len() <= s.len(),
        forall|j: int| 0 <= j < ser_opt_uuid(o).len() ==> s[i + j] == ser_opt_uuid(o)[j],
    ensures
        p_opt_uuid(s, i) == Option::Some((o, i + ser_opt_uuid(o).len())),
{
    match o {
        Option::None => {
            assert(s[i + 0] == 'n');
            lemma_p_lit(s, i, seq!['n', 'u', 'l', 'l']);
        },
        Option::Some(u) => {
            crate::digits::lemma_digits_len(u as nat, 32, 16);
            lemma_p_uuid_str_ser(s, i, u);
            assert(s[i + 0] == ser_uuid_str(u)[0]);
            assert(s[i] != 'n');
        },
    }
}

/// Parses a decimal `u16` at `i`.
pub open spec fn p_u16(s: Seq<char>, i: int) -> Option<(u16, int)> {
    match p_dec_u64(s, i) {
        Option::Some((v, j)) => if v <= u16::MAX {
            Option::Some((v as u16, j))
        } else {
            Option::None
        },
        Option::None => Option::None,
    }
}

/// Reading a written decimal gives it back, provided the next character
/// is not a digit.
pub proof fn lemma_p_u16_ser(s: Seq<char>, i: int, n: u16)
    requires
        0 <= i,
        i + ser_u16(n).len() <= s.len(),
        forall|j: int| 0 <= j < ser_u16(n).len() ==> s[i + j] == ser_u16(n)[j],
        i + ser_u16(n).len() == s.len() || !is_digit_b(s[i + ser_u16(n).len()], 10),
    ensures
        p_u16(s, i) == Option::Some((n, i + ser_u16(n).len())),
{
    crate::digits::lemma_digits_len(n as nat, crate::digits::dec_len(n as nat), 10);
    assert(ser_u16(n).len() == crate::digits::dec_len(n as nat));
    assert forall|j: int| 0 <= j < dec_rep(n as nat).len() implies s[i + j] == dec_rep(
        n as nat,
    )[j] by {
        assert(s[i + j] == ser_u16(n)[j]);
    }
    lemma_p_dec_rep(s, i, n as nat);
}

/// A number token: the raw characters.
pub open spec fn ser_num(t: Seq<char>) -> Seq<char> {
    t
}

/// Parses a maximal nonempty run of number characters at `i`.
pub open spec fn p_num_run(s: Seq<char>, i: int) -> int
    decreases s.len() - i,
{
    if 0 <= i < s.len() && is_num_char(s[i]) {
        p_num_run(s, i + 1)
    } else {
        i
    }
}

pub open spec fn p_num(s: Seq<char>, i: int) -> Option<(Seq<char>, int)> {
    let j = p_num_run(s, i);
    if 0 <= i && i < j && j <= s.len() {
        Option::Some((s.subrange(i, j), j))
    } else {
        Option::None
    }
}

proof fn lemma_p_num_run(s: Seq<char>, i: int, k: int)
    requires
        0 <= i <= k <= s.len(),
        forall|j: int| i <= j < k ==> is_num_char(#[trigger] s[j]),
        k == s.len() || !is_num_char(s[k]),
    ensures
        p_num_run(s, i) == k,
    decreases k - i,
{
    if i < k {
        lemma_p_num_run(s, i + 1, k);
    }
}

/// Reading a written number token gives it back, provided the token is
/// well formed and the next character is outside the number alphabet.
pub proof fn lemma_p_num_ser(s: Seq<char>, i: int, t: Seq<char>)
    requires
        0 <= i,
        crate::element::num_wf(t),
        i + t.len() <= s.len(),
        forall|j: int| 0 <= j < t.len() ==> s[i + j] == t[j],
        i + t.len() == s.len() || !is_num_char(s[i + t.len()]),
    ensures
        p_num(s, i) == Option::Some((t, i + t.len())),
{
    assert forall|j: int| i <= j < i + t.len() implies is_num_char(#[trigger] s[j]) by {
        assert(s[i + (j - i)] == t[j - i]);
    }
    lemma_p_num_run(s, i, i + t.len());
    assert(s.subrange(i, i + t.len()) =~= t);
}

/// A helper to slide matching facts across a concatenation: if `s` at
/// `i` matches `a + b`, it matches `a` at `i` and `b` at `i + |a|`.
pub proof fn lemma_match_split(s: Seq<char>, i: int, a: Seq<char>, b: Seq<char>)
    requires
        0 <= i,
        i + a.len() + b.len() <= s.len(),
        forall|j: int| 0 <= j < a.len() + b.len() ==> s[i + j] == (a + b)[j],
    ensures
        forall|j: int| 0 <= j < a.len() ==> s[i + j] == a[j],
        forall|j: int| 0 <= j < b.len() ==> s[i + a.len() + j] == b[j],
{
    assert forall|j: int| 0 <= j < a.len() implies s[i + j] == a[j] by {
        assert(s[i + j] == (a + b)[j]);
    }
    assert forall|j: int| 0 <= j < b.len() implies s[i + a.len() + j] == b[j] by {
        assert(s[i + (a.len() + j)] == (a + b)[a.len() + j]);
    }
}

/// The wire keyword of an access level, quoted.
pub open spec fn ser_access(l: crate::user::AccessLevel) -> Seq<char> {
    seq!['"'] + l.tag() + seq!['"']
}

/// Parses a quoted access level keyword.
pub open spec fn p_access(s: Seq<char>, i: int) -> Option<(crate::user::AccessLevel, int)> {
    if p_lit(s, i, ser_access(crate::user::AccessLevel::View)) is Some {
        Option::Some((crate::user::AccessLevel::View, i + 6))
    } else if p_lit(s, i, ser_access(crate::user::AccessLevel::Edit)) is Some {
        Option::Some((crate::user::AccessLevel::Edit, i + 6))
    } else if p_lit(s, i, ser_access(crate::user::AccessLevel::Admin)) is Some {
        Option::Some((crate::user::AccessLevel::Admin, i + 7))
    } else {
        Option::None
    }
}

pub proof fn lemma_p_access_ser(s: Seq<char>, i: int, l: crate::user::AccessLevel)
    requires
        0 <= i,
        i + ser_access(l).len() <= s.len(),
        forall|j: int| 0 <= j < ser_access(l).len() ==> s[i + j] == ser_access(l)[j],
    ensures
        p_access(s, i) == Option::Some((l, i + ser_access(l).len())),
{
    lemma_p_lit(s, i, ser_access(l));
    match l {
        crate::user::AccessLevel::View => {},
        crate::user::AccessLevel::Edit => {
            assert(p_lit(s, i, ser_access(crate::user::AccessLevel::View)) is None) by {
                if p_lit(s, i, ser_access(crate::user::AccessLevel::View)) is Some {
                    assert(s.subrange(i, i + 6)[1] == 'v');
                    assert(s[i + 1] == 'e');
                }
            }
        },
        crate::user::AccessLevel::Admin => {
            assert(p_lit(s, i, ser_access(crate::user::AccessLevel::View)) is None) by {
                if p_lit(s, i, ser_access(crate::user::AccessLevel::View)) is Some {
                    assert(s.subrange(i, i + 6)[1] == 'v');
                    assert(s[i + 1] == 'a');
                }
            }
            assert(p_lit(s, i, ser_access(crate::user::AccessLevel::Edit)) is None) by {
                if p_lit(s, i, ser_access(crate::user::AccessLevel::Edit)) is Some {
                    assert(s.subrange(i, i + 6)[1] == 'e');
                    assert(s[i + 1] == 'a');
                }
            }
        },
    }
}

/// The wire keyword of a text alignment, quoted.
pub open spec fn align_tag(a: crate::element::TextAlignment) -> Seq<char> {
    match a {
        crate::element::TextAlignment::Left => seq!['l', 'e', 'f', 't'],
        crate::element::TextAlignment::Center => seq!['c', 'e', 'n', 't', 'e', 'r'],
        crate::element::TextAlignment::Right => seq!['r', 'i', 'g', 'h', 't'],
        crate::element::TextAlignment::Justify => seq!['j', 'u', 's', 't', 'i', 'f', 'y'],
    }
}

pub open spec fn ser_align(a: crate::element::TextAlignment) -> Seq<char> {
    seq!['"'] + align_tag(a) + seq!['"']
}

pub open spec fn p_align(s: Seq<char>, i: int) -> Option<(crate::element::TextAlignment, int)> {
    if p_lit(s, i, ser_align(crate::element::TextAlignment::Left)) is Some {
        Option::Some((crate::element::TextAlignment::Left, i + 6))
    } else if p_lit(s, i, ser_align(crate::element::TextAlignment::Center)) is Some {
        Option::Some((crate::element::TextAlignment::Center, i + 8))
    } else if p_lit(s, i, ser_align(crate::element::TextAlignment::Right)) is Some {
        Option::Some((crate::element::TextAlignment::Right, i + 7))
    } else if p_lit(s, i, ser_align(crate::element::TextAlignment::Justify)) is Some {
        Option::Some((crate::element::TextAlignment::Justify, i + 9))
    } else {
        Option::None
    }
}

pub proof fn lemma_p_align_ser(s: Seq<char>, i: int, a: crate::element::TextAlignment)
    requires
        0 <= i,
        i + ser_align(a).len() <= s.len(),
        forall|j: int| 0 <= j < ser_align(a).len() ==> s[i + j] == ser_align(a)[j],
    ensures
        p_align(s, i) == Option::Some((a, i + ser_align(a).len())),
{
    lemma_p_lit(s, i, ser_align(a));
    let lf = crate::element::TextAlignment::Left;
    let cn = crate::element::TextAlignment::Center;
    let rt = crate::element::TextAlignment::Right;
    if a != lf {
        assert(p_lit(s, i, ser_align(lf)) is None) by {
            if p_lit(s, i, ser_align(lf)) is Some {
                assert(s.subrange(i, i + 6)[1] == 'l');
                assert(s[i + 1] == align_tag(a)[0]);
            }
        }
    }
    if a != cn {
        assert(p_lit(s, i, ser_align(cn)) is None) by {
            if p_lit(s, i, ser_align(cn)) is Some {
                assert(s.subrange(i, i + 8)[1] == 'c');
                assert(s[i + 1] == align_tag(a)[0]);
            }
        }
    }
    if a != rt && a == crate::element::TextAlignment::Justify {
        assert(p_lit(s, i, ser_align(rt)) is None) by {
            if p_lit(s, i, ser_align(rt)) is Some {
                assert(s.subrange(i, i + 7)[1] == 'r');
                assert(s[i + 1] == align_tag(a)[0]);
            }
        }
    }
}

/// The wire keyword of a scale policy, quoted.
pub open spec fn scale_tag(r: crate::element::ScaleRate) -> Seq<char> {
    match r {
        crate::element::ScaleRate::Plain => seq!['n', 'o', 'n', 'e'],
        crate::element::ScaleRate::Base => seq!['b', 'a', 's', 'e'],
    }
}

pub open spec fn ser_scale(r: crate::element::ScaleRate) -> Seq<char> {
    seq!['"'] + scale_tag(r) + seq!['"']
}

pub open spec fn p_scale(s: Seq<char>, i: int) -> Option<(crate::element::ScaleRate, int)> {
    if p_lit(s, i, ser_scale(crate::element::ScaleRate::Plain)) is Some {
        Option::Some((crate::element::ScaleRate::Plain, i + 6))
    } else if p_lit(s, i, ser_scale(crate::element::ScaleRate::Base)) is Some {
        Option::Some((crate::element::ScaleRate::Base, i + 6))
    } else {
        Option::None
    }
}

pub proof fn lemma_p_scale_ser(s: Seq<char>, i: int, r: crate::element::ScaleRate)
    requires
        0 <= i,
        i + ser_scale(r).len() <= s.len(),
        forall|j: int| 0 <= j < ser_scale(r).len() ==> s[i + j] == ser_scale(r)[j],
    ensures
        p_scale(s, i) == Option::Some((r, i + ser_scale(r).len())),
{
    lemma_p_lit(s, i, ser_scale(r));
    if r == crate::element::ScaleRate::Base {
        assert(p_lit(s, i, ser_scale(crate::element::ScaleRate::Plain)) is None) by {
            if p_lit(s, i, ser_scale(crate::element::ScaleRate::Plain)) is Some {
                assert(s.subrange(i, i + 6)[1] == 'n');
                assert(s[i + 1] == 'b');
            }
        }
    }
}

/// The serialized tail of an identifier list: for each remaining item a
/// comma and the item, then the closing bracket.
pub open spec fn ser_ids_rest(l: Seq<u128>) -> Seq<char>
    decreases l.len(),
{
    if l.len() == 0 {
        seq![']']
    } else {
        seq![','] + ser_uuid_str(l[0]) + ser_ids_rest(l.drop_first())
    }
}

/// A bracketed list of quoted identifiers.
pub open spec fn ser_ids(l: Seq<u128>) -> Seq<char> {
    if l.len() == 0 {
        seq!['[', ']']
    } else {
        seq!['['] + ser_uuid_str(l[0]) + ser_ids_rest(l.drop_first())
    }
}

/// Parses identifiers separated by commas until a closing bracket.
pub open spec fn p_ids_more(s: Seq<char>, i: int, acc: Seq<u128>) -> Option<(Seq<u128>, int)>
    decreases s.len() - i,
{
    if i < 0 || i >= s.len() {
        Option::None
    } else if s[i] == ']' {
        Option::Some((acc, i + 1))
    } else if s[i] == ',' {
        match p_uuid_str(s, i + 1) {
            Option::Some((u, j)) => if j > i {
                p_ids_more(s, j, acc.push(u))
            } else {
                Option::None
            },
            Option::None => Option::None,
        }
    } else {
        Option::None
    }
}

/// Parses a bracketed list of quoted identifiers.
pub open spec fn p_ids(s: Seq<char>, i: int) -> Option<(Seq<u128>, int)> {
    if 0 <= i < s.len() && s[i] == '[' {
        if i + 1 < s.len() && s[i + 1] == ']' {
            Option::Some((Seq::empty(), i + 2))
        } else {
            match p_uuid_str(s, i + 1) {
                Option::Some((u, j)) => p_ids_more(s, j, seq![u]),
                Option::None => Option::None,
            }
        }
    } else {
        Option::None
    }
}

proof fn lemma_p_ids_more(s: Seq<char>, i: int, acc: Seq<u128>, l: Seq<u128>)
    requires
        0 <= i,
        i + ser_ids_rest(l).len() <= s.len(),
        forall|j: int| 0 <= j < ser_ids_rest(l).len() ==> s[i + j] == ser_ids_rest(l)[j],
    ensures
        p_ids_more(s, i, acc) == Option::Some((acc + l, i + ser_ids_rest(l).len())),
    decreases l.len(),
{
    if l.len() == 0 {
        assert(ser_ids_rest(l) =~= seq![']']);
        assert(s[i + 0] == ser_ids_rest(l)[0]);
        assert(s[i] == ']');
        assert(acc + l =~= acc);
    } else {
        let u = l[0];
        let rest = l.drop_first();
        assert(ser_ids_rest(l) == seq![','] + ser_uuid_str(u) + ser_ids_rest(rest));
        assert(seq![','] + ser_uuid_str(u) + ser_ids_rest(rest) =~= (seq![','] + ser_uuid_str(
            u,
        )) + ser_ids_rest(rest));
        assert(s[i + 0] == ser_ids_rest(l)[0]);
        assert(ser_ids_rest(l)[0] == ',');
        lemma_match_split(s, i, seq![','] + ser_uuid_str(u), ser_ids_rest(rest));
        lemma_match_split(s, i, seq![','], ser_uuid_str(u));
        assert(s[i] != ']');
        crate::digits::lemma_digits_len(u as nat, 32, 16);
        lemma_p_uuid_str_ser(s, i + 1, u);
        lemma_p_ids_more(s, i + 39, acc.push(u), rest);
        assert(acc.push(u) + rest =~= acc + l);
    }
}

/// Reading a written identifier list gives it back.
pub proof fn lemma_p_ids_ser(s: Seq<char>, i: int, l: Seq<u128>)
    requires
        0 <= i,
        i + ser_ids(l).len() <= s.len(),
        forall|j: int| 0 <= j < ser_ids(l).len() ==> s[i + j] == ser_ids(l)[j],
    ensures
        p_ids(s, i) == Option::Some((l, i + ser_ids(l).len())),
{
    if l.len() == 0 {
        assert(s[i + 0] == ser_ids(l)[0] && s[i + 1] == ser_ids(l)[1]);
        assert(s[i] == '[' && s[i + 1] == ']');
    } else {
        assert(ser_ids(l) == seq!['['] + ser_uuid_str(l[0]) + ser_ids_rest(l.drop_first()));
        assert(seq!['['] + ser_uuid_str(l[0]) + ser_ids_rest(l.drop_first()) =~= (seq!['[']
            + ser_uuid_str(l[0])) + ser_ids_rest(l.drop_first()));
        assert(s[i + 0] == ser_ids(l)[0]);
        assert(ser_ids(l)[0] == '[');
        lemma_match_split(s, i, seq!['['] + ser_uuid_str(l[0]), ser_ids_rest(l.drop_first()));
        lemma_match_split(s, i, seq!['['], ser_uuid_str(l[0]));
        crate::digits::lemma_digits_len(l[0] as nat, 32, 16);
        lemma_p_uuid_str_ser(s, i + 1, l[0]);
        assert(s[i + 1 + 0] == ser_uuid_str(l[0])[0]);
        assert(s[i + 1] == '"');
        lemma_p_ids_more(s, i + 39, seq![l[0]], l.drop_first());
        assert(seq![l[0]] + l.drop_first() =~= l);
    }
}

/// A key or punctuation literal.
pub open spec fn lit(s: &str) -> Seq<char> {
    s@
}

/// `null`, or a quoted string.
pub open spec fn ser_opt_str(o: Option<Seq<char>>) -> Seq<char> {
    match o {
        Option::Some(t) => ser_str(t),
        Option::None => seq!['n', 'u', 'l', 'l'],
    }
}

pub open spec fn p_opt_str(s: Seq<char>, i: int) -> Option<(Option<Seq<char>>, int)> {
    if 0 <= i < s.len() && s[i] == 'n' {
        match p_lit(s, i, seq!['n', 'u', 'l', 'l']) {
            Option::Some(j) => Option::Some((Option::None, j)),
            Option::None => Option::None,
        }
    } else {
        match p_str(s, i) {
            Option::Some((t, j)) => Option::Some((Option::Some(t), j)),
            Option::None => Option::None,
        }
    }
}

pub proof fn lemma_p_opt_str_ser(s: Seq<char>, i: int, o: Option<Seq<char>>)
    requires
        0 <= i,
        i + ser_opt_str(o).len() <= s.len(),
        forall|j: int| 0 <= j < ser_opt_str(o).len() ==> s[i + j] == ser_opt_str(o)[j],
    ensures
        p_opt_str(s, i) == Option::Some((o, i + ser_opt_str(o).len())),
{
    match o {
        Option::None => {
            assert(s[i + 0] == ser_opt_str(o)[0]);
            lemma_p_lit(s, i, seq!['n', 'u', 'l', 'l']);
        },
        Option::Some(t) => {
            lemma_p_str_ser(s, i, t);
            assert(s[i + 0] == ser_opt_str(o)[0]);
            assert(ser_str(t)[0] == '"');
            assert(s[i] != 'n');
        },
    }
}

/// The wire tag of a font family, quoted.
pub open spec fn font_tag(f: crate::element::FontView) -> Seq<char> {
    match f {
        crate::element::FontView::Sans(_) => seq!['s', 'a', 'n', 's'],
        crate::element::FontView::Serif(_) => seq!['s', 'e', 'r', 'i', 'f'],
        crate::element::FontView::Mono(_) => seq!['m', 'o', 'n', 'o'],
    }
}

/// The custom family of a font choice.
pub open spec fn font_family(f: crate::element::FontView) -> Option<Seq<char>> {
    match f {
        crate::element::FontView::Sans(o) => o,
        crate::element::FontView::Serif(o) => o,
        crate::element::FontView::Mono(o) => o,
    }
}

/// A font choice: family tag and optional custom family name.
pub open spec fn ser_font(f: crate::element::FontView) -> Seq<char> {
    lit("{\"font_type\":\"") + (font_tag(f) + (lit("\",\"custom_font_family\":") + (ser_opt_str(
        font_family(f),
    ) + lit("}"))))
}

pub open spec fn p_font(s: Seq<char>, i: int) -> Option<(crate::element::FontView, int)> {
    match p_lit(s, i, lit("{\"font_type\":\"")) {
        Option::None => Option::None,
        Option::Some(j0) => {
            let sans = p_lit(s, j0, lit("sans\",\"custom_font_family\":"));
            let serif = p_lit(s, j0, lit("serif\",\"custom_font_family\":"));
            let mono = p_lit(s, j0, lit("mono\",\"custom_font_family\":"));
            let fam = if sans is Some {
                p_opt_str(s, sans->Some_0)
            } else if serif is Some {
                p_opt_str(s, serif->Some_0)
            } else if mono is Some {
                p_opt_str(s, mono->Some_0)
            } else {
                Option::None
            };
            match fam {
                Option::None => Option::None,
                Option::Some((o, j1)) => {
                    match p_lit(s, j1, lit("}")) {
                        Option::None => Option::None,
                        Option::Some(j2) => if sans is Some {
                            Option::Some((crate::element::FontView::Sans(o), j2))
                        } else if serif is Some {
                            Option::Some((crate::element::FontView::Serif(o), j2))
                        } else {
                            Option::Some((crate::element::FontView::Mono(o), j2))
                        },
                    }
                },
            }
        },
    }
}

pub proof fn lemma_p_font_ser(s: Seq<char>, i: int, f: crate::element::FontView)
    requires
        0 <= i,
        i + ser_font(f).len() <= s.len(),
        forall|j: int| 0 <= j < ser_font(f).len() ==> s[i + j] == ser_font(f)[j],
    ensures
        p_font(s, i) == Option::Some((f, i + ser_font(f).len())),
{
    reveal_strlit("{\"font_type\":\"");
    reveal_strlit("\",\"custom_font_family\":");
    reveal_strlit("sans\",\"custom_font_family\":");
    reveal_strlit("serif\",\"custom_font_family\":");
    reveal_strlit("mono\",\"custom_font_family\":");
    reveal_strlit("}");
    let h = lit("{\"font_type\":\"");
    let mid = lit("\",\"custom_font_family\":");
    let fam = ser_opt_str(font_family(f));
    let tail = fam + lit("}");
    lemma_match_split(s, i, h, font_tag(f) + (mid + tail));
    lemma_p_lit(s, i, h);
    let j0 = i + h.len() as int;
    lemma_match_split(s, j0, font_tag(f), mid + tail);
    lemma_match_split(s, j0 + font_tag(f).len() as int, mid, tail);
    // the combined tag + mid literal matches
    match f {
        crate::element::FontView::Sans(_) => {
            assert(font_tag(f) + mid =~= lit("sans\",\"custom_font_family\":"));
            assert forall|j: int| 0 <= j < (font_tag(f) + mid).len() implies s[j0 + j] == (
            font_tag(f) + mid)[j] by {
                if j < font_tag(f).len() {
                } else {
                    assert(s[j0 + font_tag(f).len() as int + (j - font_tag(f).len() as int)]
                        == mid[j - font_tag(f).len() as int]);
                }
            }
            lemma_p_lit(s, j0, lit("sans\",\"custom_font_family\":"));
        },
        crate::element::FontView::Serif(_) => {
            assert(font_tag(f) + mid =~= lit("serif\",\"custom_font_family\":"));
            assert forall|j: int| 0 <= j < (font_tag(f) + mid).len() implies s[j0 + j] == (
            font_tag(f) + mid)[j] by {
                if j < font_tag(f).len() {
                } else {
                    assert(s[j0 + font_tag(f).len() as int + (j - font_tag(f).len() as int)]
                        == mid[j - font_tag(f).len() as int]);
                }
            }
            lemma_p_lit(s, j0, lit("serif\",\"custom_font_family\":"));
            assert(p_lit(s, j0, lit("sans\",\"custom_font_family\":")) is None) by {
                if p_lit(s, j0, lit("sans\",\"custom_font_family\":")) is Some {
                    assert(s.subrange(
                        j0,
                        j0 + lit("sans\",\"custom_font_family\":").len(),
                    )[1] == 'a');
                    assert(s[j0 + 1] == font_tag(f)[1]);
                }
            }
        },
        crate::element::FontView::Mono(_) => {
            assert(font_tag(f) + mid =~= lit("mono\",\"custom_font_family\":"));
            assert forall|j: int| 0 <= j < (font_tag(f) + mid).len() implies s[j0 + j] == (
            font_tag(f) + mid)[j] by {
                if j < font_tag(f).len() {
                } else {
                    assert(s[j0 + font_tag(f).len() as int + (j - font_tag(f).len() as int)]
                        == mid[j - font_tag(f).len() as int]);
                }
            }
            lemma_p_lit(s, j0, lit("mono\",\"custom_font_family\":"));
            assert(p_lit(s, j0, lit("sans\",\"custom_font_family\":")) is None) by {
                if p_lit(s, j0, lit("sans\",\"custom_font_family\":")) is Some {
                    assert(s.subrange(
                        j0,
                        j0 + lit("sans\",\"custom_font_family\":").len(),
                    )[0] == 's');
                    assert(s[j0 + 0] == font_tag(f)[0]);
                }
            }
            assert(p_lit(s, j0, lit("serif\",\"custom_font_family\":")) is None) by {
                if p_lit(s, j0, lit("serif\",\"custom_font_family\":")) is Some {
                    assert(s.subrange(
                        j0,
                        j0 + lit("serif\",\"custom_font_family\":").len(),
                    )[0] == 's');
                    assert(s[j0 + 0] == font_tag(f)[0]);
                }
            }
        },
    }
    let j1 = j0 + font_tag(f).len() as int + mid.len() as int;
    lemma_match_split(s, j1, fam, lit("}"));
    lemma_p_opt_str_ser(s, j1, font_family(f));
    let j2 = j1 + fam.len() as int;
    lemma_p_lit(s, j2, lit("}"));
}

/// An anchor object.
pub open spec fn ser_anchor(a: crate::element::AnchorView) -> Seq<char> {
    lit("{\"top\":") + (a.top + (lit(",\"left\":") + (a.left + lit("}"))))
}

pub open spec fn p_anchor(s: Seq<char>, i: int) -> Option<(crate::element::AnchorView, int)> {
    match p_lit(s, i, lit("{\"top\":")) {
        Option::None => Option::None,
        Option::Some(j0) => match p_num(s, j0) {
            Option::None => Option::None,
            Option::Some((top, j1)) => match p_lit(s, j1, lit(",\"left\":")) {
                Option::None => Option::None,
                Option::Some(j2) => match p_num(s, j2) {
                    Option::None => Option::None,
                    Option::Some((left, j3)) => match p_lit(s, j3, lit("}")) {
                        Option::None => Option::None,
                        Option::Some(j4) => Option::Some(
                            (crate::element::AnchorView { top, left }, j4),
                        ),
                    },
                },
            },
        },
    }
}

/// Well-formedness of an anchor's tokens.
pub open spec fn anchor_wf(a: crate::element::AnchorView) -> bool {
    crate::element::num_wf(a.top) && crate::element::num_wf(a.left)
}

pub proof fn lemma_p_anchor_ser(s: Seq<char>, i: int, a: crate::element::AnchorView)
    requires
        0 <= i,
        anchor_wf(a),
        i + ser_anchor(a).len() <= s.len(),
        forall|j: int| 0 <= j < ser_anchor(a).len() ==> s[i + j] == ser_anchor(a)[j],
    ensures
        p_anchor(s, i) == Option::Some((a, i + ser_anchor(a).len())),
{
    reveal_strlit("{\"top\":");
    reveal_strlit(",\"left\":");
    reveal_strlit("}");
    let c1 = lit("{\"top\":");
    let c3 = lit(",\"left\":");
    let c5 = lit("}");
    lemma_match_split(s, i, c1, a.top + (c3 + (a.left + c5)));
    lemma_p_lit(s, i, c1);
    let j0 = i + c1.len() as int;
    lemma_match_split(s, j0, a.top, c3 + (a.left + c5));
    let j1 = j0 + a.top.len() as int;
    lemma_match_split(s, j1, c3, a.left + c5);
    assert(s[j1 + 0] == c3[0]);
    assert(!is_num_char(s[j1]));
    lemma_p_num_ser(s, j0, a.top);
    lemma_p_lit(s, j1, c3);
    let j2 = j1 + c3.len() as int;
    lemma_match_split(s, j2, a.left, c5);
    let j3 = j2 + a.left.len() as int;
    assert(s[j3 + 0] == c5[0]);
    assert(!is_num_char(s[j3]));
    lemma_p_num_ser(s, j2, a.left);
    lemma_p_lit(s, j3, c5);
}

/// A crop object.
pub open spec fn ser_crop(c: crate::element::CropView) -> Seq<char> {
    lit("{\"left\":") + (c.left + (lit(",\"top\":") + (c.top + (lit(",\"right\":") + (c.right + (
    lit(",\"bottom\":") + (c.bottom + lit("}"))))))))
}

pub open spec fn p_crop(s: Seq<char>, i: int) -> Option<(crate::element::CropView, int)> {
    match p_lit(s, i, lit("{\"left\":")) {
        Option::None => Option::None,
        Option::Some(j0) => match p_num(s, j0) {
            Option::None => Option::None,
            Option::Some((left, j1)) => match p_lit(s, j1, lit(",\"top\":")) {
                Option::None => Option::None,
                Option::Some(j2) => match p_num(s, j2) {
                    Option::None => Option::None,
                    Option::Some((top, j3)) => match p_lit(s, j3, lit(",\"right\":")) {
                        Option::None => Option::None,
                        Option::Some(j4) => match p_num(s, j4) {
                            Option::None => Option::None,
                            Option::Some((right, j5)) => match p_lit(s, j5, lit(",\"bottom\":")) {
                                Option::None => Option::None,
                                Option::Some(j6) => match p_num(s, j6) {
                                    Option::None => Option::None,
                                    Option::Some((bottom, j7)) => match p_lit(s, j7, lit("}")) {
                                        Option::None => Option::None,
                                        Option::Some(j8) => Option::Some(
                                            (
                                                crate::element::CropView {
                                                    left,
                                                    top,
                                                    right,
                                                    bottom,
                                                },
                                                j8,
                                            ),
                                        ),
                                    },
                                },
                            },
                        },
                    },
                },
            },
        },
    }
}

/// Well-formedness of a crop's tokens.
pub open spec fn crop_wf(c: crate::element::CropView) -> bool {
    crate::element::num_wf(c.left) && crate::element::num_wf(c.top) && crate::element::num_wf(
        c.right,
    ) && crate::element::num_wf(c.bottom)
}

pub proof fn lemma_p_crop_ser(s: Seq<char>, i: int, c: crate::element::CropView)
    requires
        0 <= i,
        crop_wf(c),
        i + ser_crop(c).len() <= s.len(),
        forall|j: int| 0 <= j < ser_crop(c).len() ==> s[i + j] == ser_crop(c)[j],
    ensures
        p_crop(s, i) == Option::Some((c, i + ser_crop(c).len())),
{
    reveal_strlit("{\"left\":");
    reveal_strlit(",\"top\":");
    reveal_strlit(",\"right\":");
    reveal_strlit(",\"bottom\":");
    reveal_strlit("}");
    let k1 = lit("{\"left\":");
    let k2 = lit(",\"top\":");
    let k3 = lit(",\"right\":");
    let k4 = lit(",\"bottom\":");
    let k5 = lit("}");
    lemma_match_split(s, i, k1, c.left + (k2 + (c.top + (k3 + (c.right + (k4 + (c.bottom
        + k5)))))));
    lemma_p_lit(s, i, k1);
    let j0 = i + k1.len() as int;
    lemma_match_split(s, j0, c.left, k2 + (c.top + (k3 + (c.right + (k4 + (c.bottom + k5))))));
    let j1 = j0 + c.left.len() as int;
    lemma_match_split(s, j1, k2, c.top + (k3 + (c.right + (k4 + (c.bottom + k5)))));
    assert(s[j1 + 0] == k2[0]);
    assert(!is_num_char(s[j1]));
    lemma_p_num_ser(s, j0, c.left);
    lemma_p_lit(s, j1, k2);
    let j2 = j1 + k2.len() as int;
    lemma_match_split(s, j2, c.top, k3 + (c.right + (k4 + (c.bottom + k5))));
    let j3 = j2 + c.top.len() as int;
    lemma_match_split(s, j3, k3, c.right + (k4 + (c.bottom + k5)));
    assert(s[j3 + 0] == k3[0]);
    assert(!is_num_char(s[j3]));
    lemma_p_num_ser(s, j2, c.top);
    lemma_p_lit(s, j3, k3);
    let j4 = j3 + k3.len() as int;
    lemma_match_split(s, j4, c.right, k4 + (c.bottom + k5));
    let j5 = j4 + c.right.len() as int;
    lemma_match_split(s, j5, k4, c.bottom + k5);
    assert(s[j5 + 0] == k4[0]);
    assert(!is_num_char(s[j5]));
    lemma_p_num_ser(s, j4, c.right);
    lemma_p_lit(s, j5, k4);
    let j6 = j5 + k4.len() as int;
    lemma_match_split(s, j6, c.bottom, k5);
    let j7 = j6 + c.bottom.len() as int;
    assert(s[j7 + 0] == k5[0]);
    assert(!is_num_char(s[j7]));
    lemma_p_num_ser(s, j6, c.bottom);
    lemma_p_lit(s, j7, k5);
}

/// The serialized tail of a string list.
pub open spec fn ser_strs_rest(l: Seq<Seq<char>>) -> Seq<char>
    decreases l.len(),
{
    if l.len() == 0 {
        seq![']']
    } else {
        seq![','] + ser_str(l[0]) + ser_strs_rest(l.drop_first())
    }
}

/// A bracketed list of quoted strings.
pub open spec fn ser_strs(l: Seq<Seq<char>>) -> Seq<char> {
    if l.len() == 0 {
        seq!['[', ']']
    } else {
        seq!['['] + ser_str(l[0]) + ser_strs_rest(l.drop_first())
    }
}

pub open spec fn p_strs_more(s: Seq<char>, i: int, acc: Seq<Seq<char>>) -> Option<(
    Seq<Seq<char>>,
    int,
)>
    decreases s.len() - i,
{
    if i < 0 || i >= s.len() {
        Option::None
    } else if s[i] == ']' {
        Option::Some((acc, i + 1))
    } else if s[i] == ',' {
        match p_str(s, i + 1) {
            Option::Some((t, j)) => if i + 1 < j <= s.len() {
                p_strs_more(s, j, acc.push(t))
            } else {
                Option::None
            },
            Option::None => Option::None,
        }
    } else {
        Option::None
    }
}

pub open spec fn p_strs(s: Seq<char>, i: int) -> Option<(Seq<Seq<char>>, int)> {
    if 0 <= i < s.len() && s[i] == '[' {
        if i + 1 < s.len() && s[i + 1] == ']' {
            Option::Some((Seq::empty(), i + 2))
        } else {
            match p_str(s, i + 1) {
                Option::Some((t, j)) => p_strs_more(s, j, seq![t]),
                Option::None => Option::None,
            }
        }
    } else {
        Option::None
    }
}

proof fn lemma_p_strs_more(s: Seq<char>, i: int, acc: Seq<Seq<char>>, l: Seq<Seq<char>>)
    requires
        0 <= i,
        i + ser_strs_rest(l).len() <= s.len(),
        forall|j: int| 0 <= j < ser_strs_rest(l).len() ==> s[i + j] == ser_strs_rest(l)[j],
    ensures
        p_strs_more(s, i, acc) == Option::Some((acc + l, i + ser_strs_rest(l).len())),
    decreases l.len(),
{
    if l.len() == 0 {
        assert(ser_strs_rest(l) =~= seq![']']);
        assert(s[i + 0] == ser_strs_rest(l)[0]);
        assert(s[i] == ']');
        assert(acc + l =~= acc);
    } else {
        let t = l[0];
        let rest = l.drop_first();
        assert(ser_strs_rest(l) == seq![','] + ser_str(t) + ser_strs_rest(rest));
        assert(seq![','] + ser_str(t) + ser_strs_rest(rest) =~= (seq![','] + ser_str(t))
            + ser_strs_rest(rest));
        assert(s[i + 0] == ser_strs_rest(l)[0]);
        assert(ser_strs_rest(l)[0] == ',');
        lemma_match_split(s, i, seq![','] + ser_str(t), ser_strs_rest(rest));
        lemma_match_split(s, i, seq![','], ser_str(t));
        assert(s[i] != ']');
        lemma_p_str_ser(s, i + 1, t);
        lemma_p_strs_more(s, i + 1 + ser_str(t).len() as int, acc.push(t), rest);
        assert(acc.push(t) + rest =~= acc + l);
    }
}

/// Reading a written string list gives it back.
pub proof fn lemma_p_strs_ser(s: Seq<char>, i: int, l: Seq<Seq<char>>)
    requires
        0 <= i,
        i + ser_strs(l).len() <= s.len(),
        forall|j: int| 0 <= j < ser_strs(l).len() ==> s[i + j] == ser_strs(l)[j],
    ensures
        p_strs(s, i) == Option::Some((l, i + ser_strs(l).len())),
{
    if l.len() == 0 {
        assert(s[i + 0] == ser_strs(l)[0] && s[i + 1] == ser_strs(l)[1]);
        assert(s[i] == '[' && s[i + 1] == ']');
    } else {
        assert(ser_strs(l) == seq!['['] + ser_str(l[0]) + ser_strs_rest(l.drop_first()));
        assert(seq!['['] + ser_str(l[0]) + ser_strs_rest(l.drop_first()) =~= (seq!['[']
            + ser_str(l[0])) + ser_strs_rest(l.drop_first()));
        assert(s[i + 0] == ser_strs(l)[0]);
        assert(ser_strs(l)[0] == '[');
        lemma_match_split(s, i, seq!['['] + ser_str(l[0]), ser_strs_rest(l.drop_first()));
        lemma_match_split(s, i, seq!['['], ser_str(l[0]));
        lemma_p_str_ser(s, i + 1, l[0]);
        assert(s[i + 1 + 0] == ser_str(l[0])[0]);
        assert(s[i + 1] == '"');
        lemma_p_strs_more(s, i + 1 + ser_str(l[0]).len() as int, seq![l[0]], l.drop_first());
        assert(seq![l[0]] + l.drop_first() =~= l);
    }
}

/// The fields of a text payload, without braces.
#[verifier::opaque]
pub open spec fn ser_text_fields(t: crate::element::TextView) -> Seq<char> {
    lit("\"content\":") + ser_str(t.content) + lit(",\"align\":") + ser_align(t.align) + lit(
        ",\"color\":",
    ) + ser_str(t.color) + lit(",\"size\":") + t.size + lit(",\"font\":") + ser_font(t.font)
        + lit(",\"background_color\":") + ser_str(t.background_color) + lit(
        ",\"background_blur\":",
    ) + t.background_blur
}

#[verifier::opaque]
pub open spec fn p_text_fields(s: Seq<char>, i: int) -> Option<(crate::element::TextView, int)> {
    match p_lit(s, i, lit("\"content\":")) {
        Option::None => Option::None,
        Option::Some(j0) => match p_str(s, j0) {
            Option::None => Option::None,
            Option::Some((content, j1)) => match p_lit(s, j1, lit(",\"align\":")) {
                Option::None => Option::None,
                Option::Some(j2) => match p_align(s, j2) {
                    Option::None => Option::None,
                    Option::Some((align, j3)) => match p_lit(s, j3, lit(",\"color\":")) {
                        Option::None => Option::None,
                        Option::Some(j4) => match p_str(s, j4) {
                            Option::None => Option::None,
                            Option::Some((color, j5)) => match p_lit(s, j5, lit(",\"size\":")) {
                                Option::None => Option::None,
                                Option::Some(j6) => match p_num(s, j6) {
                                    Option::None => Option::None,
                                    Option::Some((size, j7)) => match p_lit(
                                        s,
                                        j7,
                                        lit(",\"font\":"),
                                    ) {
                                        Option::None => Option::None,
                                        Option::Some(j8) => match p_font(s, j8) {
                                            Option::None => Option::None,
                                            Option::Some((font, j9)) => match p_lit(
                                                s,
                                                j9,
                                                lit(",\"background_color\":"),
                                            ) {
                                                Option::None => Option::None,
                                                Option::Some(j10) => match p_str(s, j10) {
                                                    Option::None => Option::None,
                                                    Option::Some((bg, j11)) => match p_lit(
                                                        s,
                                                        j11,
                                                        lit(",\"background_blur\":"),
                                                    ) {
                                                        Option::None => Option::None,
                                                        Option::Some(j12) => match p_num(
                                                            s,
                                                            j12,
                                                        ) {
                                                            Option::None => Option::None,
                                                            Option::Some((blur, j13)) =>
                                                                Option::Some(
                                                                (
                                                                    crate::element::TextView {
                                                                        content,
                                                                        align,
                                                                        color,
                                                                        size,
                                                                        font: font,
                                                                        background_color: bg,
                                                                        background_blur: blur,
                                                                    },
                                                                    j13,
                                                                ),
                                                            ),
                                                        },
                                                    },
                                                },
                                            },
                                        },
                                    },
                                },
                            },
                        },
                    },
                },
            },
        },
    }
}

/// Well-formedness of a text payload's tokens.
pub open spec fn text_wf(t: crate::element::TextView) -> bool {
    crate::element::num_wf(t.size) && crate::element::num_wf(t.background_blur)
}

#[verifier::rlimit(100)]
pub proof fn lemma_p_text_fields_ser(s: Seq<char>, i: int, t: crate::element::TextView)
    requires
        0 <= i,
        text_wf(t),
        i + ser_text_fields(t).len() < s.len(),
        forall|j: int| 0 <= j < ser_text_fields(t).len() ==> s[i + j] == ser_text_fields(t)[j],
        !is_num_char(s[i + ser_text_fields(t).len()]),
    ensures
        p_text_fields(s, i) == Option::Some((t, i + ser_text_fields(t).len())),
{
    reveal(p_text_fields);
    reveal(ser_text_fields);
    reveal_strlit("\"content\":");
    reveal_strlit(",\"align\":");
    reveal_strlit(",\"color\":");
    reveal_strlit(",\"size\":");
    reveal_strlit(",\"font\":");
    reveal_strlit(",\"background_color\":");
    reveal_strlit(",\"background_blur\":");
    let w = ser_text_fields(t);
    let k1 = lit("\"content\":");
    let k2 = lit(",\"align\":");
    let k3 = lit(",\"color\":");
    let k4 = lit(",\"size\":");
    let k5 = lit(",\"font\":");
    let k6 = lit(",\"background_color\":");
    let k7 = lit(",\"background_blur\":");
    let o1: int = 0;
    let o2 = o1 + k1.len();
    let o3 = o2 + ser_str(t.content).len();
    let o4 = o3 + k2.len();
    let o5 = o4 + ser_align(t.align).len();
    let o6 = o5 + k3.len();
    let o7 = o6 + ser_str(t.color).len();
    let o8 = o7 + k4.len();
    let o9 = o8 + t.size.len();
    let o10 = o9 + k5.len();
    let o11 = o10 + ser_font(t.font).len();
    let o12 = o11 + k6.len();
    let o13 = o12 + ser_str(t.background_color).len();
    let o14 = o13 + k7.len();
    assert forall|j: int| 0 <= j < k1.len() implies s[i + o1 + j] == k1[j] by {
        assert(s[i + (o1 + j)] == w[o1 + j]);
    }
    lemma_p_lit(s, i + o1, k1);
    assert forall|j: int| 0 <= j < ser_str(t.content).len() implies s[i + o2 + j] == ser_str(
        t.content,
    )[j] by {
        assert(s[i + (o2 + j)] == w[o2 + j]);
    }
    lemma_p_str_ser(s, i + o2, t.content);
    assert forall|j: int| 0 <= j < k2.len() implies s[i + o3 + j] == k2[j] by {
        assert(s[i + (o3 + j)] == w[o3 + j]);
    }
    lemma_p_lit(s, i + o3, k2);
    assert forall|j: int| 0 <= j < ser_align(t.align).len() implies s[i + o4 + j] == ser_align(
        t.align,
    )[j] by {
        assert(s[i + (o4 + j)] == w[o4 + j]);
    }
    lemma_p_align_ser(s, i + o4, t.align);
    assert forall|j: int| 0 <= j < k3.len() implies s[i + o5 + j] == k3[j] by {
        assert(s[i + (o5 + j)] == w[o5 + j]);
    }
    lemma_p_lit(s, i + o5, k3);
    assert forall|j: int| 0 <= j < ser_str(t.color).len() implies s[i + o6 + j] == ser_str(
        t.color,
    )[j] by {
        assert(s[i + (o6 + j)] == w[o6 + j]);
    }
    lemma_p_str_ser(s, i + o6, t.color);
    assert forall|j: int| 0 <= j < k4.len() implies s[i + o7 + j] == k4[j] by {
        assert(s[i + (o7 + j)] == w[o7 + j]);
    }
    lemma_p_lit(s, i + o7, k4);
    assert forall|j: int| 0 <= j < t.size.len() implies s[i + o8 + j] == t.size[j] by {
        assert(s[i + (o8 + j)] == w[o8 + j]);
    }
    assert forall|j: int| 0 <= j < k5.len() implies s[i + o9 + j] == k5[j] by {
        assert(s[i + (o9 + j)] == w[o9 + j]);
    }
    assert(s[i + o9 + 0] == k5[0]);
    assert(!is_num_char(s[i + o9]));
    lemma_p_num_ser(s, i + o8, t.size);
    lemma_p_lit(s, i + o9, k5);
    assert forall|j: int| 0 <= j < ser_font(t.font).len() implies s[i + o10 + j] == ser_font(
        t.font,
    )[j] by {
        assert(s[i + (o10 + j)] == w[o10 + j]);
    }
    lemma_p_font_ser(s, i + o10, t.font);
    assert forall|j: int| 0 <= j < k6.len() implies s[i + o11 + j] == k6[j] by {
        assert(s[i + (o11 + j)] == w[o11 + j]);
    }
    lemma_p_lit(s, i + o11, k6);
    assert forall|j: int| 0 <= j < ser_str(t.background_color).len() implies s[i + o12 + j]
        == ser_str(t.background_color)[j] by {
        assert(s[i + (o12 + j)] == w[o12 + j]);
    }
    lemma_p_str_ser(s, i + o12, t.background_color);
    assert forall|j: int| 0 <= j < k7.len() implies s[i + o13 + j] == k7[j] by {
        assert(s[i + (o13 + j)] == w[o13 + j]);
    }
    lemma_p_lit(s, i + o13, k7);
    assert forall|j: int| 0 <= j < t.background_blur.len() implies s[i + o14 + j]
        == t.background_blur[j] by {
        assert(s[i + (o14 + j)] == w[o14 + j]);
    }
    assert(!is_num_char(s[i + o14 + t.background_blur.len() as int])) by {
        assert(o14 + t.background_blur.len() == w.len());
    }
    lemma_p_num_ser(s, i + o14, t.background_blur);
}

/// A caption on an image.
#[verifier::opaque]
pub open spec fn ser_imgtext(it: crate::element::ImageTextView) -> Seq<char> {
    lit("{\"x\":") + (it.x + (lit(",\"y\":") + (it.y + (lit(",\"anchor\":") + (ser_anchor(
        it.anchor,
    ) + (lit(",\"text\":{") + (ser_text_fields(it.text) + lit("}}"))))))))
}

#[verifier::opaque]
pub open spec fn p_imgtext(s: Seq<char>, i: int) -> Option<(crate::element::ImageTextView, int)> {
    match p_lit(s, i, lit("{\"x\":")) {
        Option::None => Option::None,
        Option::Some(j0) => match p_num(s, j0) {
            Option::None => Option::None,
            Option::Some((x, j1)) => match p_lit(s, j1, lit(",\"y\":")) {
                Option::None => Option::None,
                Option::Some(j2) => match p_num(s, j2) {
                    Option::None => Option::None,
                    Option::Some((y, j3)) => match p_lit(s, j3, lit(",\"anchor\":")) {
                        Option::None => Option::None,
                        Option::Some(j4) => match p_anchor(s, j4) {
                            Option::None => Option::None,
                            Option::Some((anchor, j5)) => match p_lit(s, j5, lit(",\"text\":{")) {
                                Option::None => Option::None,
                                Option::Some(j6) => match p_text_fields(s, j6) {
                                    Option::None => Option::None,
                                    Option::Some((text, j7)) => match p_lit(s, j7, lit("}}")) {
                                        Option::None => Option::None,
                                        Option::Some(j8) => Option::Some(
                                            (
                                                crate::element::ImageTextView {
                                                    x,
                                                    y,
                                                    anchor,
                                                    text,
                                                },
                                                j8,
                                            ),
                                        ),
                                    },
                                },
                            },
                        },
                    },
                },
            },
        },
    }
}

/// Well-formedness of a caption's tokens.
pub open spec fn imgtext_wf(it: crate::element::ImageTextView) -> bool {
    crate::element::num_wf(it.x) && crate::element::num_wf(it.y) && anchor_wf(it.anchor)
        && text_wf(it.text)
}

#[verifier::rlimit(100)]
pub proof fn lemma_p_imgtext_ser(s: Seq<char>, i: int, it: crate::element::ImageTextView)
    requires
        0 <= i,
        imgtext_wf(it),
        i + ser_imgtext(it).len() <= s.len(),
        forall|j: int| 0 <= j < ser_imgtext(it).len() ==> s[i + j] == ser_imgtext(it)[j],
    ensures
        p_imgtext(s, i) == Option::Some((it, i + ser_imgtext(it).len())),
        ser_imgtext(it).len() > 2,
        ser_imgtext(it)[0] == '{',
{
    reveal(p_imgtext);
    reveal(ser_imgtext);
    reveal_strlit("{\"x\":");
    assert(ser_imgtext(it)[0] == lit("{\"x\":")[0]);
    reveal_strlit("{\"x\":");
    reveal_strlit(",\"y\":");
    reveal_strlit(",\"anchor\":");
    reveal_strlit(",\"text\":{");
    reveal_strlit("}}");
    let k1 = lit("{\"x\":");
    let k2 = lit(",\"y\":");
    let k3 = lit(",\"anchor\":");
    let k4 = lit(",\"text\":{");
    let k5 = lit("}}");
    let r1 = it.x + (k2 + (it.y + (k3 + (ser_anchor(it.anchor) + (k4 + (ser_text_fields(
        it.text,
    ) + k5))))));
    lemma_match_split(s, i, k1, r1);
    lemma_p_lit(s, i, k1);
    let j0 = i + k1.len() as int;
    let r2 = k2 + (it.y + (k3 + (ser_anchor(it.anchor) + (k4 + (ser_text_fields(it.text)
        + k5)))));
    lemma_match_split(s, j0, it.x, r2);
    let j1 = j0 + it.x.len() as int;
    let r3 = it.y + (k3 + (ser_anchor(it.anchor) + (k4 + (ser_text_fields(it.text) + k5))));
    lemma_match_split(s, j1, k2, r3);
    assert(s[j1 + 0] == k2[0]);
    assert(!is_num_char(s[j1]));
    lemma_p_num_ser(s, j0, it.x);
    lemma_p_lit(s, j1, k2);
    let j2 = j1 + k2.len() as int;
    let r4 = k3 + (ser_anchor(it.anchor) + (k4 + (ser_text_fields(it.text) + k5)));
    lemma_match_split(s, j2, it.y, r4);
    let j3 = j2 + it.y.len() as int;
    let r5 = ser_anchor(it.anchor) + (k4 + (ser_text_fields(it.text) + k5));
    lemma_match_split(s, j3, k3, r5);
    assert(s[j3 + 0] == k3[0]);
    assert(!is_num_char(s[j3]));
    lemma_p_num_ser(s, j2, it.y);
    lemma_p_lit(s, j3, k3);
    let j4 = j3 + k3.len() as int;
    let r6 = k4 + (ser_text_fields(it.text) + k5);
    lemma_match_split(s, j4, ser_anchor(it.anchor), r6);
    lemma_p_anchor_ser(s, j4, it.anchor);
    let j5 = j4 + ser_anchor(it.anchor).len() as int;
    let r7 = ser_text_fields(it.text) + k5;
    lemma_match_split(s, j5, k4, r7);
    lemma_p_lit(s, j5, k4);
    let j6 = j5 + k4.len() as int;
    lemma_match_split(s, j6, ser_text_fields(it.text), k5);
    let j7 = j6 + ser_text_fields(it.text).len() as int;
    assert(s[j7 + 0] == k5[0]);
    assert(!is_num_char(s[j7]));
    lemma_p_text_fields_ser(s, j6, it.text);
    lemma_p_lit(s, j7, k5);
}

/// The serialized tail of a caption list.
pub open spec fn ser_imgtexts_rest(l: Seq<crate::element::ImageTextView>) -> Seq<char>
    decreases l.len(),
{
    if l.len() == 0 {
        seq![']']
    } else {
        seq![','] + ser_imgtext(l[0]) + ser_imgtexts_rest(l.drop_first())
    }
}

/// A bracketed list of captions.
pub open spec fn ser_imgtexts(l: Seq<crate::element::ImageTextView>) -> Seq<char> {
    if l.len() == 0 {
        seq!['[', ']']
    } else {
        seq!['['] + ser_imgtext(l[0]) + ser_imgtexts_rest(l.drop_first())
    }
}

pub open spec fn p_imgtexts_more(
    s: Seq<char>,
    i: int,
    acc: Seq<crate::element::ImageTextView>,
) -> Option<(Seq<crate::element::ImageTextView>, int)>
    decreases s.len() - i,
{
    if i < 0 || i >= s.len() {
        Option::None
    } else if s[i] == ']' {
        Option::Some((acc, i + 1))
    } else if s[i] == ',' {
        match p_imgtext(s, i + 1) {
            Option::Some((t, j)) => if i + 1 < j <= s.len() {
                p_imgtexts_more(s, j, acc.push(t))
            } else {
                Option::None
            },
            Option::None => Option::None,
        }
    } else {
        Option::None
    }
}

pub open spec fn p_imgtexts(s: Seq<char>, i: int) -> Option<(
    Seq<crate::element::ImageTextView>,
    int,
)> {
    if 0 <= i < s.len() && s[i] == '[' {
        if i + 1 < s.len() && s[i + 1] == ']' {
            Option::Some((Seq::empty(), i + 2))
        } else {
            match p_imgtext(s, i + 1) {
                Option::Some((t, j)) => if i + 1 < j <= s.len() {
                    p_imgtexts_more(s, j, seq![t])
                } else {
                    Option::None
                },
                Option::None => Option::None,
            }
        }
    } else {
        Option::None
    }
}

#[verifier::rlimit(100)]
proof fn lemma_p_imgtexts_more(
    s: Seq<char>,
    i: int,
    acc: Seq<crate::element::ImageTextView>,
    l: Seq<crate::element::ImageTextView>,
)
    requires
        0 <= i,
        forall|j: int| 0 <= j < l.len() ==> imgtext_wf(#[trigger] l[j]),
        i + ser_imgtexts_rest(l).len() <= s.len(),
        forall|j: int| 0 <= j < ser_imgtexts_rest(l).len() ==> s[i + j] == ser_imgtexts_rest(
            l,
        )[j],
    ensures
        p_imgtexts_more(s, i, acc) == Option::Some((acc + l, i + ser_imgtexts_rest(l).len())),
    decreases l.len(),
{
    if l.len() == 0 {
        assert(ser_imgtexts_rest(l) =~= seq![']']);
        assert(s[i + 0] == ser_imgtexts_rest(l)[0]);
        assert(s[i] == ']');
        assert(acc + l =~= acc);
    } else {
        let t = l[0];
        let rest = l.drop_first();
        assert(imgtext_wf(t));
        assert(forall|j: int| 0 <= j < rest.len() ==> imgtext_wf(#[trigger] rest[j]));
        assert(ser_imgtexts_rest(l) == seq![','] + ser_imgtext(t) + ser_imgtexts_rest(rest));
        assert(seq![','] + ser_imgtext(t) + ser_imgtexts_rest(rest) =~= (seq![','] + ser_imgtext(
            t,
        )) + ser_imgtexts_rest(rest));
        assert(s[i + 0] == ser_imgtexts_rest(l)[0]);
        assert(ser_imgtexts_rest(l)[0] == ',');
        lemma_match_split(s, i, seq![','] + ser_imgtext(t), ser_imgtexts_rest(rest));
        lemma_match_split(s, i, seq![','], ser_imgtext(t));
        assert(s[i] != ']');
        lemma_p_imgtext_ser(s, i + 1, t);
        lemma_p_imgtexts_more(s, i + 1 + ser_imgtext(t).len() as int, acc.push(t), rest);
        assert(acc.push(t) + rest =~= acc + l);
    }
}

#[verifier::rlimit(100)]
pub proof fn lemma_p_imgtexts_ser(s: Seq<char>, i: int, l: Seq<crate::element::ImageTextView>)
    requires
        0 <= i,
        forall|j: int| 0 <= j < l.len() ==> imgtext_wf(#[trigger] l[j]),
        i + ser_imgtexts(l).len() <= s.len(),
        forall|j: int| 0 <= j < ser_imgtexts(l).len() ==> s[i + j] == ser_imgtexts(l)[j],
    ensures
        p_imgtexts(s, i) == Option::Some((l, i + ser_imgtexts(l).len())),
{
    if l.len() == 0 {
        assert(s[i + 0] == ser_imgtexts(l)[0] && s[i + 1] == ser_imgtexts(l)[1]);
        assert(s[i] == '[' && s[i + 1] == ']');
    } else {
        assert(ser_imgtexts(l) == seq!['['] + ser_imgtext(l[0]) + ser_imgtexts_rest(
            l.drop_first(),
        ));
        assert(seq!['['] + ser_imgtext(l[0]) + ser_imgtexts_rest(l.drop_first()) =~= (seq!['[']
            + ser_imgtext(l[0])) + ser_imgtexts_rest(l.drop_first()));
        assert(s[i + 0] == ser_imgtexts(l)[0]);
        assert(ser_imgtexts(l)[0] == '[');
        lemma_match_split(s, i, seq!['['] + ser_imgtext(l[0]), ser_imgtexts_rest(
            l.drop_first(),
        ));
        lemma_match_split(s, i, seq!['['], ser_imgtext(l[0]));
        lemma_p_imgtext_ser(s, i + 1, l[0]);
        assert(s[i + 1 + 0] == ser_imgtext(l[0])[0]);
        reveal_strlit("{\"x\":");
        assert(ser_imgtext(l[0])[0] == '{');
        assert(s[i + 1] == '{');
        assert(s[i + 1] != ']');
        lemma_p_imgtexts_more(s, i + 1 + ser_imgtext(l[0]).len() as int, seq![l[0]],
            l.drop_first());
        assert(seq![l[0]] + l.drop_first() =~= l);
    }
}

/// The first fields of an image payload: url, alt, scales, crop.
#[verifier::opaque]
pub open spec fn ser_image_head(m: crate::element::ImageView) -> Seq<char> {
    lit("\"url\":") + ser_str(m.url) + lit(",\"alt\":") + ser_str(m.alt) + lit(
        ",\"scale_x\":",
    ) + m.scale_x + lit(",\"scale_y\":") + m.scale_y + lit(",\"crop\":") + ser_crop(m.crop)
}

/// The last fields of an image payload: outline and captions.
#[verifier::opaque]
pub open spec fn ser_image_tail(m: crate::element::ImageView) -> Seq<char> {
    lit(",\"outline_color\":") + ser_str(m.outline_color) + lit(",\"outline_thickness\":")
        + m.outline_thickness + lit(",\"outline_blur\":") + m.outline_blur + lit(",\"text\":")
        + ser_imgtexts(m.text)
}

/// The fields of an image payload, without braces.
pub open spec fn ser_image_fields(m: crate::element::ImageView) -> Seq<char> {
    ser_image_head(m) + ser_image_tail(m)
}

/// The first half of an image payload: url, alt, scales and crop.
#[verifier::opaque]
pub open spec fn p_image_head(s: Seq<char>, i: int) -> Option<(
    (Seq<char>, Seq<char>, Seq<char>, Seq<char>, crate::element::CropView),
    int,
)> {
    match p_lit(s, i, lit("\"url\":")) {
        Option::None => Option::None,
        Option::Some(j0) => match p_str(s, j0) {
            Option::None => Option::None,
            Option::Some((url, j1)) => match p_lit(s, j1, lit(",\"alt\":")) {
                Option::None => Option::None,
                Option::Some(j2) => match p_str(s, j2) {
                    Option::None => Option::None,
                    Option::Some((alt, j3)) => match p_lit(s, j3, lit(",\"scale_x\":")) {
                        Option::None => Option::None,
                        Option::Some(j4) => match p_num(s, j4) {
                            Option::None => Option::None,
                            Option::Some((sx, j5)) => match p_lit(s, j5, lit(",\"scale_y\":")) {
                                Option::None => Option::None,
                                Option::Some(j6) => match p_num(s, j6) {
                                    Option::None => Option::None,
                                    Option::Some((sy, j7)) => match p_lit(
                                        s,
                                        j7,
                                        lit(",\"crop\":"),
                                    ) {
                                        Option::None => Option::None,
                                        Option::Some(j8) => match p_crop(s, j8) {
                                            Option::None => Option::None,
                                            Option::Some((crop, j9)) => Option::Some(
                                                ((url, alt, sx, sy, crop), j9),
                                            ),
                                        },
                                    },
                                },
                            },
                        },
                    },
                },
            },
        },
    }
}

/// The second half of an image payload: outline and captions.
#[verifier::opaque]
pub open spec fn p_image_tail(s: Seq<char>, i: int) -> Option<(
    (Seq<char>, Seq<char>, Seq<char>, Seq<crate::element::ImageTextView>),
    int,
)> {
    match p_lit(s, i, lit(",\"outline_color\":")) {
        Option::None => Option::None,
        Option::Some(j10) => match p_str(s, j10) {
            Option::None => Option::None,
            Option::Some((oc, j11)) => match p_lit(s, j11, lit(",\"outline_thickness\":")) {
                Option::None => Option::None,
                Option::Some(j12) => match p_num(s, j12) {
                    Option::None => Option::None,
                    Option::Some((ot, j13)) => match p_lit(s, j13, lit(",\"outline_blur\":")) {
                        Option::None => Option::None,
                        Option::Some(j14) => match p_num(s, j14) {
                            Option::None => Option::None,
                            Option::Some((ob, j15)) => match p_lit(s, j15, lit(",\"text\":")) {
                                Option::None => Option::None,
                                Option::Some(j16) => match p_imgtexts(s, j16) {
                                    Option::None => Option::None,
                                    Option::Some((txt, j17)) => Option::Some(
                                        ((oc, ot, ob, txt), j17),
                                    ),
                                },
                            },
                        },
                    },
                },
            },
        },
    }
}

/// The fields of an image payload, without braces.
#[verifier::opaque]
pub open spec fn p_image_fields(s: Seq<char>, i: int) -> Option<(crate::element::ImageView, int)> {
    match p_image_head(s, i) {
        Option::None => Option::None,
        Option::Some(((url, alt, sx, sy, crop), j9)) => match p_image_tail(s, j9) {
            Option::None => Option::None,
            Option::Some(((oc, ot, ob, txt), j17)) => Option::Some(
                (
                    crate::element::ImageView {
                        url,
                        alt,
                        scale_x: sx,
                        scale_y: sy,
                        crop,
                        outline_color: oc,
                        outline_thickness: ot,
                        outline_blur: ob,
                        text: txt,
                    },
                    j17,
                ),
            ),
        },
    }
}

/// Well-formedness of an image payload's tokens.
pub open spec fn image_wf(m: crate::element::ImageView) -> bool {
    &&& crate::element::num_wf(m.scale_x)
    &&& crate::element::num_wf(m.scale_y)
    &&& crop_wf(m.crop)
    &&& crate::element::num_wf(m.outline_thickness)
    &&& crate::element::num_wf(m.outline_blur)
    &&& forall|j: int| 0 <= j < m.text.len() ==> imgtext_wf(#[trigger] m.text[j])
}

#[verifier::rlimit(100)]
proof fn lemma_p_image_head_ser(s: Seq<char>, i: int, m: crate::element::ImageView)
    requires
        0 <= i,
        image_wf(m),
        i + ser_image_head(m).len() < s.len(),
        forall|j: int| 0 <= j < ser_image_head(m).len() ==> s[i + j] == ser_image_head(m)[j],
        s[i + ser_image_head(m).len()] == ',',
    ensures
        p_image_head(s, i) == Option::Some(
            ((m.url, m.alt, m.scale_x, m.scale_y, m.crop), i + ser_image_head(m).len()),
        ),
{
    reveal(p_image_head);
    reveal(ser_image_head);
    reveal_strlit("\"url\":");
    reveal_strlit(",\"alt\":");
    reveal_strlit(",\"scale_x\":");
    reveal_strlit(",\"scale_y\":");
    reveal_strlit(",\"crop\":");
    let w = ser_image_head(m);
    let k1 = lit("\"url\":");
    let k2 = lit(",\"alt\":");
    let k3 = lit(",\"scale_x\":");
    let k4 = lit(",\"scale_y\":");
    let k5 = lit(",\"crop\":");
    let o1: int = 0;
    let o2 = o1 + k1.len();
    let o3 = o2 + ser_str(m.url).len();
    let o4 = o3 + k2.len();
    let o5 = o4 + ser_str(m.alt).len();
    let o6 = o5 + k3.len();
    let o7 = o6 + m.scale_x.len();
    let o8 = o7 + k4.len();
    let o9 = o8 + m.scale_y.len();
    let o10 = o9 + k5.len();
    assert forall|j: int| 0 <= j < k1.len() implies s[i + o1 + j] == k1[j] by {
        assert(s[i + (o1 + j)] == w[o1 + j]);
    }
    lemma_p_lit(s, i + o1, k1);
    assert forall|j: int| 0 <= j < ser_str(m.url).len() implies s[i + o2 + j] == ser_str(
        m.url,
    )[j] by {
        assert(s[i + (o2 + j)] == w[o2 + j]);
    }
    lemma_p_str_ser(s, i + o2, m.url);
    assert forall|j: int| 0 <= j < k2.len() implies s[i + o3 + j] == k2[j] by {
        assert(s[i + (o3 + j)] == w[o3 + j]);
    }
    lemma_p_lit(s, i + o3, k2);
    assert forall|j: int| 0 <= j < ser_str(m.alt).len() implies s[i + o4 + j] == ser_str(
        m.alt,
    )[j] by {
        assert(s[i + (o4 + j)] == w[o4 + j]);
    }
    lemma_p_str_ser(s, i + o4, m.alt);
    assert forall|j: int| 0 <= j < k3.len() implies s[i + o5 + j] == k3[j] by {
        assert(s[i + (o5 + j)] == w[o5 + j]);
    }
    lemma_p_lit(s, i + o5, k3);
    assert forall|j: int| 0 <= j < m.scale_x.len() implies s[i + o6 + j] == m.scale_x[j] by {
        assert(s[i + (o6 + j)] == w[o6 + j]);
    }
    assert forall|j: int| 0 <= j < k4.len() implies s[i + o7 + j] == k4[j] by {
        assert(s[i + (o7 + j)] == w[o7 + j]);
    }
    assert(s[i + o7 + 0] == k4[0]);
    assert(!is_num_char(s[i + o7]));
    lemma_p_num_ser(s, i + o6, m.scale_x);
    lemma_p_lit(s, i + o7, k4);
    assert forall|j: int| 0 <= j < m.scale_y.len() implies s[i + o8 + j] == m.scale_y[j] by {
        assert(s[i + (o8 + j)] == w[o8 + j]);
    }
    assert forall|j: int| 0 <= j < k5.len() implies s[i + o9 + j] == k5[j] by {
        assert(s[i + (o9 + j)] == w[o9 + j]);
    }
    assert(s[i + o9 + 0] == k5[0]);
    assert(!is_num_char(s[i + o9]));
    lemma_p_num_ser(s, i + o8, m.scale_y);
    lemma_p_lit(s, i + o9, k5);
    assert forall|j: int| 0 <= j < ser_crop(m.crop).len() implies s[i + o10 + j] == ser_crop(
        m.crop,
    )[j] by {
        assert(s[i + (o10 + j)] == w[o10 + j]);
    }
    lemma_p_crop_ser(s, i + o10, m.crop);
}

#[verifier::rlimit(100)]
proof fn lemma_p_image_tail_ser(s: Seq<char>, i: int, m: crate::element::ImageView)
    requires
        0 <= i,
        image_wf(m),
        i + ser_image_tail(m).len() <= s.len(),
        forall|j: int| 0 <= j < ser_image_tail(m).len() ==> s[i + j] == ser_image_tail(m)[j],
    ensures
        p_image_tail(s, i) == Option::Some(
            (
                (m.outline_color, m.outline_thickness, m.outline_blur, m.text),
                i + ser_image_tail(m).len(),
            ),
        ),
{
    reveal(p_image_tail);
    reveal(ser_image_tail);
    reveal_strlit(",\"outline_color\":");
    reveal_strlit(",\"outline_thickness\":");
    reveal_strlit(",\"outline_blur\":");
    reveal_strlit(",\"text\":");
    let w = ser_image_tail(m);
    let k6 = lit(",\"outline_color\":");
    let k7 = lit(",\"outline_thickness\":");
    let k8 = lit(",\"outline_blur\":");
    let k9 = lit(",\"text\":");
    let o11: int = 0;
    let o12 = o11 + k6.len();
    let o13 = o12 + ser_str(m.outline_color).len();
    let o14 = o13 + k7.len();
    let o15 = o14 + m.outline_thickness.len();
    let o16 = o15 + k8.len();
    let o17 = o16 + m.outline_blur.len();
    let o18 = o17 + k9.len();
    assert forall|j: int| 0 <= j < k6.len() implies s[i + o11 + j] == k6[j] by {
        assert(s[i + (o11 + j)] == w[o11 + j]);
    }
    lemma_p_lit(s, i + o11, k6);
    assert forall|j: int| 0 <= j < ser_str(m.outline_color).len() implies s[i + o12 + j]
        == ser_str(m.outline_color)[j] by {
        assert(s[i + (o12 + j)] == w[o12 + j]);
    }
    lemma_p_str_ser(s, i + o12, m.outline_color);
    assert forall|j: int| 0 <= j < k7.len() implies s[i + o13 + j] == k7[j] by {
        assert(s[i + (o13 + j)] == w[o13 + j]);
    }
    lemma_p_lit(s, i + o13, k7);
    assert forall|j: int| 0 <= j < m.outline_thickness.len() implies s[i + o14 + j]
        == m.outline_thickness[j] by {
        assert(s[i + (o14 + j)] == w[o14 + j]);
    }
    assert forall|j: int| 0 <= j < k8.len() implies s[i + o15 + j] == k8[j] by {
        assert(s[i + (o15 + j)] == w[o15 + j]);
    }
    assert(s[i + o15 + 0] == k8[0]);
    assert(!is_num_char(s[i + o15]));
    lemma_p_num_ser(s, i + o14, m.outline_thickness);
    lemma_p_lit(s, i + o15, k8);
    assert forall|j: int| 0 <= j < m.outline_blur.len() implies s[i + o16 + j]
        == m.outline_blur[j] by {
        assert(s[i + (o16 + j)] == w[o16 + j]);
    }
    assert forall|j: int| 0 <= j < k9.len() implies s[i + o17 + j] == k9[j] by {
        assert(s[i + (o17 + j)] == w[o17 + j]);
    }
    assert(s[i + o17 + 0] == k9[0]);
    assert(!is_num_char(s[i + o17]));
    lemma_p_num_ser(s, i + o16, m.outline_blur);
    lemma_p_lit(s, i + o17, k9);
    assert forall|j: int| 0 <= j < ser_imgtexts(m.text).len() implies s[i + o18 + j]
        == ser_imgtexts(m.text)[j] by {
        assert(s[i + (o18 + j)] == w[o18 + j]);
    }
    lemma_p_imgtexts_ser(s, i + o18, m.text);
}

pub proof fn lemma_p_image_fields_ser(s: Seq<char>, i: int, m: crate::element::ImageView)
    requires
        0 <= i,
        image_wf(m),
        i + ser_image_fields(m).len() <= s.len(),
        forall|j: int| 0 <= j < ser_image_fields(m).len() ==> s[i + j] == ser_image_fields(
            m,
        )[j],
    ensures
        p_image_fields(s, i) == Option::Some((m, i + ser_image_fields(m).len())),
{
    reveal(p_image_fields);
    let h = ser_image_head(m);
    let t = ser_image_tail(m);
    assert(ser_image_fields(m) == h + t);
    assert forall|j: int| 0 <= j < h.len() + t.len() implies s[i + j] == (h + t)[j] by {
        assert(s[i + j] == ser_image_fields(m)[j]);
    }
    lemma_match_split(s, i, h, t);
    assert(t.len() > 0 && t[0] == ',') by {
        reveal(ser_image_tail);
        reveal_strlit(",\"outline_color\":");
        assert(t[0] == lit(",\"outline_color\":")[0]);
    }
    assert(s[i + h.len() + 0] == t[0]);
    lemma_p_image_head_ser(s, i, m);
    lemma_p_image_tail_ser(s, i + h.len() as int, m);
}

/// An element payload: its kind tag and that kind's fields.
#[verifier::opaque]
pub open spec fn ser_payload(p: crate::element::ElementTypeView) -> Seq<char> {
    match p {
        crate::element::ElementTypeView::Text(t) => lit("{\"type\":\"text\",") + ser_text_fields(
            t,
        ) + lit("}"),
        crate::element::ElementTypeView::Image(m) => lit("{\"type\":\"image\",")
            + ser_image_fields(m) + lit("}"),
    }
}

#[verifier::opaque]
pub open spec fn p_payload(s: Seq<char>, i: int) -> Option<(
    crate::element::ElementTypeView,
    int,
)> {
    if p_lit(s, i, lit("{\"type\":\"text\",")) is Some {
        match p_text_fields(s, i + lit("{\"type\":\"text\",").len()) {
            Option::None => Option::None,
            Option::Some((t, j)) => match p_lit(s, j, lit("}")) {
                Option::None => Option::None,
                Option::Some(j2) => Option::Some(
                    (crate::element::ElementTypeView::Text(t), j2),
                ),
            },
        }
    } else if p_lit(s, i, lit("{\"type\":\"image\",")) is Some {
        match p_image_fields(s, i + lit("{\"type\":\"image\",").len()) {
            Option::None => Option::None,
            Option::Some((m, j)) => match p_lit(s, j, lit("}")) {
                Option::None => Option::None,
                Option::Some(j2) => Option::Some(
                    (crate::element::ElementTypeView::Image(m), j2),
                ),
            },
        }
    } else {
        Option::None
    }
}

/// Well-formedness of a payload's tokens.
pub open spec fn payload_wf(p: crate::element::ElementTypeView) -> bool {
    match p {
        crate::element::ElementTypeView::Text(t) => text_wf(t),
        crate::element::ElementTypeView::Image(m) => image_wf(m),
    }
}

pub proof fn lemma_p_payload_ser(s: Seq<char>, i: int, p: crate::element::ElementTypeView)
    requires
        0 <= i,
        payload_wf(p),
        i + ser_payload(p).len() <= s.len(),
        forall|j: int| 0 <= j < ser_payload(p).len() ==> s[i + j] == ser_payload(p)[j],
    ensures
        p_payload(s, i) == Option::Some((p, i + ser_payload(p).len())),
        ser_payload(p).len() > 0,
        ser_payload(p)[0] == '{',
{
    reveal(p_payload);
    reveal(ser_payload);
    reveal_strlit("{\"type\":\"text\",");
    reveal_strlit("{\"type\":\"image\",");
    reveal_strlit("}");
    let ht = lit("{\"type\":\"text\",");
    let hi = lit("{\"type\":\"image\",");
    match p {
        crate::element::ElementTypeView::Text(t) => {
            let w = ht + ser_text_fields(t) + lit("}");
            assert(w =~= ht + (ser_text_fields(t) + lit("}")));
            lemma_match_split(s, i, ht, ser_text_fields(t) + lit("}"));
            lemma_match_split(s, i + ht.len() as int, ser_text_fields(t), lit("}"));
            lemma_p_lit(s, i, ht);
            let j0 = i + ht.len() as int;
            let j1 = j0 + ser_text_fields(t).len() as int;
            assert(s[j1 + 0] == lit("}")[0]);
            assert(!is_num_char(s[j1]));
            lemma_p_text_fields_ser(s, j0, t);
            lemma_p_lit(s, j1, lit("}"));
            assert(ser_payload(p)[0] == w[0]);
        },
        crate::element::ElementTypeView::Image(m) => {
            let w = hi + ser_image_fields(m) + lit("}");
            assert(w =~= hi + (ser_image_fields(m) + lit("}")));
            lemma_match_split(s, i, hi, ser_image_fields(m) + lit("}"));
            lemma_match_split(s, i + hi.len() as int, ser_image_fields(m), lit("}"));
            lemma_p_lit(s, i, hi);
            let j0 = i + hi.len() as int;
            let j1 = j0 + ser_image_fields(m).len() as int;
            lemma_p_image_fields_ser(s, j0, m);
            lemma_p_lit(s, j1, lit("}"));
            assert(p_lit(s, i, ht) is None) by {
                if p_lit(s, i, ht) is Some {
                    assert(s.subrange(i, i + ht.len())[9] == 't');
                    assert(s[i + 9] == hi[9]);
                }
            }
            assert(ser_payload(p)[0] == w[0]);
        },
    }
}

/// An element's identity and payload on the wire.
#[verifier::opaque]
pub open spec fn ser_elem_id(e: crate::element::ElementView) -> Seq<char> {
    lit("{\"uuid\":") + ser_uuid_str(e.uuid) + lit(",\"ty\":") + ser_payload(e.ty)
}

/// An element's edit and selection marks on the wire.
#[verifier::opaque]
pub open spec fn ser_elem_sel(e: crate::element::ElementView) -> Seq<char> {
    lit(",\"last_edited_by\":") + ser_opt_uuid(e.last_edited_by) + lit(",\"selected_by\":")
        + ser_opt_uuid(e.selected_by)
}

/// The identity half of an element on the wire.
pub open spec fn ser_element_head(e: crate::element::ElementView) -> Seq<char> {
    ser_elem_id(e) + ser_elem_sel(e)
}

/// The transform half of an element on the wire.
#[verifier::opaque]
pub open spec fn ser_element_tail(e: crate::element::ElementView) -> Seq<char> {
    lit(",\"x\":") + e.x + lit(",\"y\":") + e.y + lit(",\"anchor\":") + ser_anchor(e.anchor)
        + lit(",\"rotation\":") + e.rotation + lit(",\"scale_rate\":") + ser_scale(e.scale_rate)
        + lit(",\"z_index\":") + e.z_index + lit(",\"tags\":") + ser_strs(e.tags) + lit("}")
}

/// One element on the wire.
pub open spec fn ser_element(e: crate::element::ElementView) -> Seq<char> {
    ser_element_head(e) + ser_element_tail(e)
}

/// The identity and payload of an element.
#[verifier::opaque]
pub open spec fn p_element_head(s: Seq<char>, i: int) -> Option<(
    (u128, crate::element::ElementTypeView, Option<u128>, Option<u128>),
    int,
)> {
    match p_lit(s, i, lit("{\"uuid\":")) {
        Option::None => Option::None,
        Option::Some(j0) => match p_uuid_str(s, j0) {
            Option::None => Option::None,
            Option::Some((uuid, j1)) => match p_lit(s, j1, lit(",\"ty\":")) {
                Option::None => Option::None,
                Option::Some(j2) => match p_payload(s, j2) {
                    Option::None => Option::None,
                    Option::Some((ty, j3)) => match p_lit(s, j3, lit(",\"last_edited_by\":")) {
                        Option::None => Option::None,
                        Option::Some(j4) => match p_opt_uuid(s, j4) {
                            Option::None => Option::None,
                            Option::Some((leb, j5)) => match p_lit(
                                s,
                                j5,
                                lit(",\"selected_by\":"),
                            ) {
                                Option::None => Option::None,
                                Option::Some(j6) => match p_opt_uuid(s, j6) {
                                    Option::None => Option::None,
                                    Option::Some((sb, j7)) => Option::Some(
                                        ((uuid, ty, leb, sb), j7),
                                    ),
                                },
                            },
                        },
                    },
                },
            },
        },
    }
}

/// The transform, ordering and tags of an element.
#[verifier::opaque]
pub open spec fn p_element_tail(s: Seq<char>, i: int) -> Option<(
    (
        Seq<char>,
        Seq<char>,
        crate::element::AnchorView,
        Seq<char>,
        crate::element::ScaleRate,
        Seq<char>,
        Seq<Seq<char>>,
    ),
    int,
)> {
    match p_lit(s, i, lit(",\"x\":")) {
        Option::None => Option::None,
        Option::Some(j0) => match p_num(s, j0) {
            Option::None => Option::None,
            Option::Some((x, j1)) => match p_lit(s, j1, lit(",\"y\":")) {
                Option::None => Option::None,
                Option::Some(j2) => match p_num(s, j2) {
                    Option::None => Option::None,
                    Option::Some((y, j3)) => match p_lit(s, j3, lit(",\"anchor\":")) {
                        Option::None => Option::None,
                        Option::Some(j4) => match p_anchor(s, j4) {
                            Option::None => Option::None,
                            Option::Some((anchor, j5)) => match p_lit(
                                s,
                                j5,
                                lit(",\"rotation\":"),
                            ) {
                                Option::None => Option::None,
                                Option::Some(j6) => match p_num(s, j6) {
                                    Option::None => Option::None,
                                    Option::Some((rot, j7)) => match p_lit(
                                        s,
                                        j7,
                                        lit(",\"scale_rate\":"),
                                    ) {
                                        Option::None => Option::None,
                                        Option::Some(j8) => match p_scale(s, j8) {
                                            Option::None => Option::None,
                                            Option::Some((sr, j9)) => match p_lit(
                                                s,
                                                j9,
                                                lit(",\"z_index\":"),
                                            ) {
                                                Option::None => Option::None,
                                                Option::Some(j10) => match p_num(s, j10) {
                                                    Option::None => Option::None,
                                                    Option::Some((z, j11)) => match p_lit(
                                                        s,
                                                        j11,
                                                        lit(",\"tags\":"),
                                                    ) {
                                                        Option::None => Option::None,
                                                        Option::Some(j12) => match p_strs(
                                                            s,
                                                            j12,
                                                        ) {
                                                            Option::None => Option::None,
                                                            Option::Some((tags, j13)) =>
                                                                match p_lit(s, j13, lit("}")) {
                                                                Option::None => Option::None,
                                                                Option::Some(j14) => Option::Some(
                                                                    (
                                                                        (
                                                                            x,
                                                                            y,
                                                                            anchor,
                                                                            rot,
                                                                            sr,
                                                                            z,
                                                                            tags,
                                                                        ),
                                                                        j14,
                                                                    ),
                                                                ),
                                                            },
                                                        },
                                                    },
                                                },
                                            },
                                        },
                                    },
                                },
                            },
                        },
                    },
                },
            },
        },
    }
}

/// Parses one element.
#[verifier::opaque]
pub open spec fn p_element(s: Seq<char>, i: int) -> Option<(crate::element::ElementView, int)> {
    match p_element_head(s, i) {
        Option::None => Option::None,
        Option::Some(((uuid, ty, leb, sb), j7)) => match p_element_tail(s, j7) {
            Option::None => Option::None,
            Option::Some(((x, y, anchor, rot, sr, z, tags), j14)) => Option::Some(
                (
                    crate::element::ElementView {
                        uuid,
                        ty,
                        last_edited_by: leb,
                        selected_by: sb,
                        x,
                        y,
                        anchor,
                        rotation: rot,
                        scale_rate: sr,
                        z_index: z,
                        tags,
                    },
                    j14,
                ),
            ),
        },
    }
}

/// Well-formedness of an element's tokens.
pub open spec fn element_wf(e: crate::element::ElementView) -> bool {
    &&& payload_wf(e.ty)
    &&& crate::element::num_wf(e.x)
    &&& crate::element::num_wf(e.y)
    &&& anchor_wf(e.anchor)
    &&& crate::element::num_wf(e.rotation)
    &&& crate::element::num_wf(e.z_index)
}

#[verifier::rlimit(100)]
proof fn lemma_p_elem_id_ser(s: Seq<char>, i: int, e: crate::element::ElementView)
    requires
        0 <= i,
        element_wf(e),
        i + ser_elem_id(e).len() < s.len(),
        forall|j: int| 0 <= j < ser_elem_id(e).len() ==> s[i + j] == ser_elem_id(e)[j],
    ensures
        ({
            let w = ser_elem_id(e);
            &&& p_lit(s, i, lit("{\"uuid\":")) == Option::Some(i + lit("{\"uuid\":").len())
            &&& p_uuid_str(s, i + lit("{\"uuid\":").len()) == Option::Some(
                (e.uuid, i + lit("{\"uuid\":").len() + 38),
            )
            &&& p_lit(s, i + lit("{\"uuid\":").len() + 38, lit(",\"ty\":")) == Option::Some(
                i + lit("{\"uuid\":").len() + 38 + lit(",\"ty\":").len(),
            )
            &&& p_payload(s, i + lit("{\"uuid\":").len() + 38 + lit(",\"ty\":").len())
                == Option::Some((e.ty, i + w.len()))
        }),
        ser_elem_id(e).len() > 0,
        ser_elem_id(e)[0] == '{',
{
    reveal(ser_elem_id);
    reveal_strlit("{\"uuid\":");
    reveal_strlit(",\"ty\":");
    let w = ser_elem_id(e);
    let k1 = lit("{\"uuid\":");
    let k2 = lit(",\"ty\":");
    crate::digits::lemma_digits_len(e.uuid as nat, 32, 16);
    let o1: int = 0;
    let o2 = o1 + k1.len();
    let o3 = o2 + ser_uuid_str(e.uuid).len();
    let o4 = o3 + k2.len();
    assert forall|j: int| 0 <= j < k1.len() implies s[i + o1 + j] == k1[j] by {
        assert(s[i + (o1 + j)] == w[o1 + j]);
    }
    lemma_p_lit(s, i + o1, k1);
    assert forall|j: int| 0 <= j < ser_uuid_str(e.uuid).len() implies s[i + o2 + j]
        == ser_uuid_str(e.uuid)[j] by {
        assert(s[i + (o2 + j)] == w[o2 + j]);
    }
    lemma_p_uuid_str_ser(s, i + o2, e.uuid);
    assert forall|j: int| 0 <= j < k2.len() implies s[i + o3 + j] == k2[j] by {
        assert(s[i + (o3 + j)] == w[o3 + j]);
    }
    lemma_p_lit(s, i + o3, k2);
    assert forall|j: int| 0 <= j < ser_payload(e.ty).len() implies s[i + o4 + j] == ser_payload(
        e.ty,
    )[j] by {
        assert(s[i + (o4 + j)] == w[o4 + j]);
    }
    lemma_p_payload_ser(s, i + o4, e.ty);
    assert(ser_elem_id(e)[0] == k1[0]);
}

#[verifier::rlimit(100)]
proof fn lemma_p_elem_sel_ser(s: Seq<char>, i: int, e: crate::element::ElementView)
    requires
        0 <= i,
        i + ser_elem_sel(e).len() <= s.len(),
        forall|j: int| 0 <= j < ser_elem_sel(e).len() ==> s[i + j] == ser_elem_sel(e)[j],
    ensures
        ({
            let w = ser_elem_sel(e);
            let k3 = lit(",\"last_edited_by\":");
            let k4 = lit(",\"selected_by\":");
            &&& p_lit(s, i, k3) == Option::Some(i + k3.len())
            &&& p_opt_uuid(s, i + k3.len()) == Option::Some(
                (
                    e.last_edited_by,
                    i + k3.len() + ser_opt_uuid(e.last_edited_by).len(),
                ),
            )
            &&& p_lit(s, i + k3.len() + ser_opt_uuid(e.last_edited_by).len(), k4)
                == Option::Some(
                i + k3.len() + ser_opt_uuid(e.last_edited_by).len() + k4.len(),
            )
            &&& p_opt_uuid(
                s,
                i + k3.len() + ser_opt_uuid(e.last_edited_by).len() + k4.len(),
            ) == Option::Some((e.selected_by, i + w.len()))
        }),
        ser_elem_sel(e).len() > 0,
        ser_elem_sel(e)[0] == ',',
{
    reveal(ser_elem_sel);
    reveal_strlit(",\"last_edited_by\":");
    reveal_strlit(",\"selected_by\":");
    let w = ser_elem_sel(e);
    let k3 = lit(",\"last_edited_by\":");
    let k4 = lit(",\"selected_by\":");
    let o1: int = 0;
    let o2 = o1 + k3.len();
    let o3 = o2 + ser_opt_uuid(e.last_edited_by).len();
    let o4 = o3 + k4.len();
    assert forall|j: int| 0 <= j < k3.len() implies s[i + o1 + j] == k3[j] by {
        assert(s[i + (o1 + j)] == w[o1 + j]);
    }
    lemma_p_lit(s, i + o1, k3);
    assert forall|j: int| 0 <= j < ser_opt_uuid(e.last_edited_by).len() implies s[i + o2 + j]
        == ser_opt_uuid(e.last_edited_by)[j] by {
        assert(s[i + (o2 + j)] == w[o2 + j]);
    }
    lemma_p_opt_uuid_ser(s, i + o2, e.last_edited_by);
    assert forall|j: int| 0 <= j < k4.len() implies s[i + o3 + j] == k4[j] by {
        assert(s[i + (o3 + j)] == w[o3 + j]);
    }
    lemma_p_lit(s, i + o3, k4);
    assert forall|j: int| 0 <= j < ser_opt_uuid(e.selected_by).len() implies s[i + o4 + j]
        == ser_opt_uuid(e.selected_by)[j] by {
        assert(s[i + (o4 + j)] == w[o4 + j]);
    }
    lemma_p_opt_uuid_ser(s, i + o4, e.selected_by);
    assert(ser_elem_sel(e)[0] == k3[0]);
}

#[verifier::rlimit(100)]
proof fn lemma_p_element_head_ser(s: Seq<char>, i: int, e: crate::element::ElementView)
    requires
        0 <= i,
        element_wf(e),
        i + ser_element_head(e).len() < s.len(),
        forall|j: int| 0 <= j < ser_element_head(e).len() ==> s[i + j] == ser_element_head(
            e,
        )[j],
    ensures
        p_element_head(s, i) == Option::Some(
            (
                (e.uuid, e.ty, e.last_edited_by, e.selected_by),
                i + ser_element_head(e).len(),
            ),
        ),
        ser_element_head(e).len() > 0,
        ser_element_head(e)[0] == '{',
{
    reveal(p_element_head);
    let a = ser_elem_id(e);
    let b = ser_elem_sel(e);
    assert(ser_element_head(e) == a + b);
    assert forall|j: int| 0 <= j < a.len() + b.len() implies s[i + j] == (a + b)[j] by {
        assert(s[i + j] == ser_element_head(e)[j]);
    }
    lemma_match_split(s, i, a, b);
    lemma_p_elem_id_ser(s, i, e);
    lemma_p_elem_sel_ser(s, i + a.len() as int, e);
    assert(ser_element_head(e)[0] == a[0]);
}

#[verifier::rlimit(100)]
proof fn lemma_p_element_tail_ser(s: Seq<char>, i: int, e: crate::element::ElementView)
    requires
        0 <= i,
        element_wf(e),
        i + ser_element_tail(e).len() <= s.len(),
        forall|j: int| 0 <= j < ser_element_tail(e).len() ==> s[i + j] == ser_element_tail(
            e,
        )[j],
    ensures
        p_element_tail(s, i) == Option::Some(
            (
                (e.x, e.y, e.anchor, e.rotation, e.scale_rate, e.z_index, e.tags),
                i + ser_element_tail(e).len(),
            ),
        ),
        ser_element_tail(e).len() > 0,
        ser_element_tail(e)[0] == ',',
{
    reveal(p_element_tail);
    reveal(ser_element_tail);
    reveal_strlit(",\"x\":");
    reveal_strlit(",\"y\":");
    reveal_strlit(",\"anchor\":");
    reveal_strlit(",\"rotation\":");
    reveal_strlit(",\"scale_rate\":");
    reveal_strlit(",\"z_index\":");
    reveal_strlit(",\"tags\":");
    reveal_strlit("}");
    let w = ser_element_tail(e);
    let k5 = lit(",\"x\":");
    let k6 = lit(",\"y\":");
    let k7 = lit(",\"anchor\":");
    let k8 = lit(",\"rotation\":");
    let k9 = lit(",\"scale_rate\":");
    let k10 = lit(",\"z_index\":");
    let k11 = lit(",\"tags\":");
    let k12 = lit("}");
    let o9: int = 0;
    let o10 = o9 + k5.len();
    let o11 = o10 + e.x.len();
    let o12 = o11 + k6.len();
    let o13 = o12 + e.y.len();
    let o14 = o13 + k7.len();
    let o15 = o14 + ser_anchor(e.anchor).len();
    let o16 = o15 + k8.len();
    let o17 = o16 + e.rotation.len();
    let o18 = o17 + k9.len();
    let o19 = o18 + ser_scale(e.scale_rate).len();
    let o20 = o19 + k10.len();
    let o21 = o20 + e.z_index.len();
    let o22 = o21 + k11.len();
    let o23 = o22 + ser_strs(e.tags).len();
    assert forall|j: int| 0 <= j < k5.len() implies s[i + o9 + j] == k5[j] by {
        assert(s[i + (o9 + j)] == w[o9 + j]);
    }
    lemma_p_lit(s, i + o9, k5);
    assert forall|j: int| 0 <= j < e.x.len() implies s[i + o10 + j] == e.x[j] by {
        assert(s[i + (o10 + j)] == w[o10 + j]);
    }
    assert forall|j: int| 0 <= j < k6.len() implies s[i + o11 + j] == k6[j] by {
        assert(s[i + (o11 + j)] == w[o11 + j]);
    }
    assert(s[i + o11 + 0] == k6[0]);
    assert(!is_num_char(s[i + o11]));
    lemma_p_num_ser(s, i + o10, e.x);
    lemma_p_lit(s, i + o11, k6);
    assert forall|j: int| 0 <= j < e.y.len() implies s[i + o12 + j] == e.y[j] by {
        assert(s[i + (o12 + j)] == w[o12 + j]);
    }
    assert forall|j: int| 0 <= j < k7.len() implies s[i + o13 + j] == k7[j] by {
        assert(s[i + (o13 + j)] == w[o13 + j]);
    }
    assert(s[i + o13 + 0] == k7[0]);
    assert(!is_num_char(s[i + o13]));
    lemma_p_num_ser(s, i + o12, e.y);
    lemma_p_lit(s, i + o13, k7);
    assert forall|j: int| 0 <= j < ser_anchor(e.anchor).len() implies s[i + o14 + j]
        == ser_anchor(e.anchor)[j] by {
        assert(s[i + (o14 + j)] == w[o14 + j]);
    }
    lemma_p_anchor_ser(s, i + o14, e.anchor);
    assert forall|j: int| 0 <= j < k8.len() implies s[i + o15 + j] == k8[j] by {
        assert(s[i + (o15 + j)] == w[o15 + j]);
    }
    lemma_p_lit(s, i + o15, k8);
    assert forall|j: int| 0 <= j < e.rotation.len() implies s[i + o16 + j] == e.rotation[j] by {
        assert(s[i + (o16 + j)] == w[o16 + j]);
    }
    assert forall|j: int| 0 <= j < k9.len() implies s[i + o17 + j] == k9[j] by {
        assert(s[i + (o17 + j)] == w[o17 + j]);
    }
    assert(s[i + o17 + 0] == k9[0]);
    assert(!is_num_char(s[i + o17]));
    lemma_p_num_ser(s, i + o16, e.rotation);
    lemma_p_lit(s, i + o17, k9);
    assert forall|j: int| 0 <= j < ser_scale(e.scale_rate).len() implies s[i + o18 + j]
        == ser_scale(e.scale_rate)[j] by {
        assert(s[i + (o18 + j)] == w[o18 + j]);
    }
    lemma_p_scale_ser(s, i + o18, e.scale_rate);
    assert forall|j: int| 0 <= j < k10.len() implies s[i + o19 + j] == k10[j] by {
        assert(s[i + (o19 + j)] == w[o19 + j]);
    }
    lemma_p_lit(s, i + o19, k10);
    assert forall|j: int| 0 <= j < e.z_index.len() implies s[i + o20 + j] == e.z_index[j] by {
        assert(s[i + (o20 + j)] == w[o20 + j]);
    }
    assert forall|j: int| 0 <= j < k11.len() implies s[i + o21 + j] == k11[j] by {
        assert(s[i + (o21 + j)] == w[o21 + j]);
    }
    assert(s[i + o21 + 0] == k11[0]);
    assert(!is_num_char(s[i + o21]));
    lemma_p_num_ser(s, i + o20, e.z_index);
    lemma_p_lit(s, i + o21, k11);
    assert forall|j: int| 0 <= j < ser_strs(e.tags).len() implies s[i + o22 + j] == ser_strs(
        e.tags,
    )[j] by {
        assert(s[i + (o22 + j)] == w[o22 + j]);
    }
    lemma_p_strs_ser(s, i + o22, e.tags);
    assert forall|j: int| 0 <= j < k12.len() implies s[i + o23 + j] == k12[j] by {
        assert(s[i + (o23 + j)] == w[o23 + j]);
    }
    lemma_p_lit(s, i + o23, k12);
    assert(ser_element_tail(e)[0] == k5[0]);
}

/// Reading a written element gives it back.
#[verifier::rlimit(100)]
pub proof fn lemma_p_element_ser(s: Seq<char>, i: int, e: crate::element::ElementView)
    requires
        0 <= i,
        element_wf(e),
        i + ser_element(e).len() <= s.len(),
        forall|j: int| 0 <= j < ser_element(e).len() ==> s[i + j] == ser_element(e)[j],
    ensures
        p_element(s, i) == Option::Some((e, i + ser_element(e).len())),
        ser_element(e).len() > 0,
        ser_element(e)[0] == '{',
{
    reveal(p_element);
    let h = ser_element_head(e);
    let t = ser_element_tail(e);
    assert(ser_element(e) == h + t);
    assert forall|j: int| 0 <= j < h.len() + t.len() implies s[i + j] == (h + t)[j] by {
        assert(s[i + j] == ser_element(e)[j]);
    }
    lemma_match_split(s, i, h, t);
    lemma_p_element_tail_ser(s, i + h.len() as int, e);
    lemma_p_element_head_ser(s, i, e);
    assert(crate::element::ElementView {
        uuid: e.uuid,
        ty: e.ty,
        last_edited_by: e.last_edited_by,
        selected_by: e.selected_by,
        x: e.x,
        y: e.y,
        anchor: e.anchor,
        rotation: e.rotation,
        scale_rate: e.scale_rate,
        z_index: e.z_index,
        tags: e.tags,
    } =~= e);
    assert(p_element_head(s, i) == Option::Some(
        ((e.uuid, e.ty, e.last_edited_by, e.selected_by), i + h.len() as int),
    ));
    assert(p_element_tail(s, i + h.len() as int) == Option::Some(
        (
            (e.x, e.y, e.anchor, e.rotation, e.scale_rate, e.z_index, e.tags),
            i + h.len() + t.len(),
        ),
    ));
    assert(ser_element(e).len() == h.len() + t.len());
    assert(p_element(s, i) == Option::Some((e, i + ser_element(e).len())));
    assert(ser_element(e)[0] == h[0]);
}

/// The serialized tail of an element list.
pub open spec fn ser_elems_rest(l: Seq<crate::element::ElementView>) -> Seq<char>
    decreases l.len(),
{
    if l.len() == 0 {
        seq![']']
    } else {
        seq![','] + ser_element(l[0]) + ser_elems_rest(l.drop_first())
    }
}

/// A bracketed list of elements.
pub open spec fn ser_elems(l: Seq<crate::element::ElementView>) -> Seq<char> {
    if l.len() == 0 {
        seq!['[', ']']
    } else {
        seq!['['] + ser_element(l[0]) + ser_elems_rest(l.drop_first())
    }
}

pub open spec fn p_elems_more(s: Seq<char>, i: int, acc: Seq<crate::element::ElementView>)
    -> Option<(Seq<crate::element::ElementView>, int)>
    decreases s.len() - i,
{
    if i < 0 || i >= s.len() {
        Option::None
    } else if s[i] == ']' {
        Option::Some((acc, i + 1))
    } else if s[i] == ',' {
        match p_element(s, i + 1) {
            Option::Some((e, j)) => if i + 1 < j <= s.len() {
                p_elems_more(s, j, acc.push(e))
            } else {
                Option::None
            },
            Option::None => Option::None,
        }
    } else {
        Option::None
    }
}

pub open spec fn p_elems(s: Seq<char>, i: int) -> Option<(
    Seq<crate::element::ElementView>,
    int,
)> {
    if 0 <= i < s.len() && s[i] == '[' {
        if i + 1 < s.len() && s[i + 1] == ']' {
            Option::Some((Seq::empty(), i + 2))
        } else {
            match p_element(s, i + 1) {
                Option::Some((e, j)) => if i + 1 < j <= s.len() {
                    p_elems_more(s, j, seq![e])
                } else {
                    Option::None
                },
                Option::None => Option::None,
            }
        }
    } else {
        Option::None
    }
}

/// Well-formedness of an element list's tokens.
pub open spec fn elems_wf(l: Seq<crate::element::ElementView>) -> bool {
    forall|j: int| 0 <= j < l.len() ==> element_wf(#[trigger] l[j])
}

proof fn lemma_p_elems_more(
    s: Seq<char>,
    i: int,
    acc: Seq<crate::element::ElementView>,
    l: Seq<crate::element::ElementView>,
)
    requires
        0 <= i,
        elems_wf(l),
        i + ser_elems_rest(l).len() <= s.len(),
        forall|j: int| 0 <= j < ser_elems_rest(l).len() ==> s[i + j] == ser_elems_rest(l)[j],
    ensures
        p_elems_more(s, i, acc) == Option::Some((acc + l, i + ser_elems_rest(l).len())),
    decreases l.len(),
{
    if l.len() == 0 {
        assert(ser_elems_rest(l) =~= seq![']']);
        assert(s[i + 0] == ser_elems_rest(l)[0]);
        assert(s[i] == ']');
        assert(acc + l =~= acc);
    } else {
        let e = l[0];
        let rest = l.drop_first();
        assert(element_wf(e));
        assert(elems_wf(rest)) by {
            assert(forall|j: int| 0 <= j < rest.len() ==> rest[j] == l[j + 1]
                && element_wf(#[trigger] l[j + 1]));
        }
        assert(ser_elems_rest(l) == seq![','] + ser_element(e) + ser_elems_rest(rest));
        assert(seq![','] + ser_element(e) + ser_elems_rest(rest) =~= (seq![','] + ser_element(
            e,
        )) + ser_elems_rest(rest));
        assert(s[i + 0] == ser_elems_rest(l)[0]);
        assert(ser_elems_rest(l)[0] == ',');
        lemma_match_split(s, i, seq![','] + ser_element(e), ser_elems_rest(rest));
        lemma_match_split(s, i, seq![','], ser_element(e));
        assert(s[i] != ']');
        lemma_p_element_ser(s, i + 1, e);
        lemma_p_elems_more(s, i + 1 + ser_element(e).len() as int, acc.push(e), rest);
        assert(acc.push(e) + rest =~= acc + l);
    }
}

/// Reading a written element list gives it back.
pub proof fn lemma_p_elems_ser(s: Seq<char>, i: int, l: Seq<crate::element::ElementView>)
    requires
        0 <= i,
        elems_wf(l),
        i + ser_elems(l).len() <= s.len(),
        forall|j: int| 0 <= j < ser_elems(l).len() ==> s[i + j] == ser_elems(l)[j],
    ensures
        p_elems(s, i) == Option::Some((l, i + ser_elems(l).len())),
{
    if l.len() == 0 {
        assert(s[i + 0] == ser_elems(l)[0] && s[i + 1] == ser_elems(l)[1]);
        assert(s[i] == '[' && s[i + 1] == ']');
    } else {
        assert(elems_wf(l.drop_first())) by {
            assert(forall|j: int| 0 <= j < l.drop_first().len() ==> l.drop_first()[j] == l[j + 1]
                && element_wf(#[trigger] l[j + 1]));
        }
        assert(ser_elems(l) == seq!['['] + ser_element(l[0]) + ser_elems_rest(l.drop_first()));
        assert(seq!['['] + ser_element(l[0]) + ser_elems_rest(l.drop_first()) =~= (seq!['[']
            + ser_element(l[0])) + ser_elems_rest(l.drop_first()));
        assert(s[i + 0] == ser_elems(l)[0]);
        assert(ser_elems(l)[0] == '[');
        lemma_match_split(s, i, seq!['['] + ser_element(l[0]), ser_elems_rest(l.drop_first()));
        lemma_match_split(s, i, seq!['['], ser_element(l[0]));
        lemma_p_element_ser(s, i + 1, l[0]);
        assert(s[i + 1 + 0] == ser_element(l[0])[0]);
        assert(s[i + 1] == '{');
        assert(s[i + 1] != ']');
        lemma_p_elems_more(s, i + 1 + ser_element(l[0]).len() as int, seq![l[0]],
            l.drop_first());
        assert(seq![l[0]] + l.drop_first() =~= l);
    }
}

/// The body of a command envelope after the optional token: the wire tag
/// and the command's fields.
#[verifier::opaque]
pub open spec fn ser_cmd_body(c: crate::commands::ReceiveTypeView) -> Seq<char> {
    match c {
        crate::commands::ReceiveTypeView::AccessLevelAdjustment { user, access_level } => lit(
            "\"type\":\"access_level_adjustment\",\"user\":",
        ) + ser_uuid_str(user) + lit(",\"access_level\":") + ser_access(access_level),
        crate::commands::ReceiveTypeView::Selection { elements } => lit(
            "\"type\":\"selection\",\"elements\":",
        ) + ser_ids(elements),
        crate::commands::ReceiveTypeView::Canvas { canvas } => lit(
            "\"type\":\"canvas\",\"canvas\":",
        ) + ser_u16(canvas),
        crate::commands::ReceiveTypeView::Elements { elements, deleted_elements } => lit(
            "\"type\":\"elements\",\"elements\":",
        ) + ser_elems(elements) + lit(",\"deleted_elements\":") + ser_ids(deleted_elements),
    }
}

#[verifier::opaque]
pub open spec fn p_cmd_body(s: Seq<char>, i: int) -> Option<(
    crate::commands::ReceiveTypeView,
    int,
)> {
    if p_lit(s, i, lit("\"type\":\"access_level_adjustment\",\"user\":")) is Some {
        let j0 = i + lit("\"type\":\"access_level_adjustment\",\"user\":").len();
        match p_uuid_str(s, j0) {
            Option::None => Option::None,
            Option::Some((user, j1)) => match p_lit(s, j1, lit(",\"access_level\":")) {
                Option::None => Option::None,
                Option::Some(j2) => match p_access(s, j2) {
                    Option::None => Option::None,
                    Option::Some((level, j3)) => Option::Some(
                        (
                            crate::commands::ReceiveTypeView::AccessLevelAdjustment {
                                user,
                                access_level: level,
                            },
                            j3,
                        ),
                    ),
                },
            },
        }
    } else if p_lit(s, i, lit("\"type\":\"selection\",\"elements\":")) is Some {
        let j0 = i + lit("\"type\":\"selection\",\"elements\":").len();
        match p_ids(s, j0) {
            Option::None => Option::None,
            Option::Some((ids, j1)) => Option::Some(
                (crate::commands::ReceiveTypeView::Selection { elements: ids }, j1),
            ),
        }
    } else if p_lit(s, i, lit("\"type\":\"canvas\",\"canvas\":")) is Some {
        let j0 = i + lit("\"type\":\"canvas\",\"canvas\":").len();
        match p_u16(s, j0) {
            Option::None => Option::None,
            Option::Some((canvas, j1)) => Option::Some(
                (crate::commands::ReceiveTypeView::Canvas { canvas }, j1),
            ),
        }
    } else if p_lit(s, i, lit("\"type\":\"elements\",\"elements\":")) is Some {
        let j0 = i + lit("\"type\":\"elements\",\"elements\":").len();
        match p_elems(s, j0) {
            Option::None => Option::None,
            Option::Some((els, j1)) => match p_lit(s, j1, lit(",\"deleted_elements\":")) {
                Option::None => Option::None,
                Option::Some(j2) => match p_ids(s, j2) {
                    Option::None => Option::None,
                    Option::Some((dels, j3)) => Option::Some(
                        (
                            crate::commands::ReceiveTypeView::Elements {
                                elements: els,
                                deleted_elements: dels,
                            },
                            j3,
                        ),
                    ),
                },
            },
        }
    } else {
        Option::None
    }
}

/// Well-formedness of a command's tokens.
pub open spec fn cmd_wf(c: crate::commands::ReceiveTypeView) -> bool {
    match c {
        crate::commands::ReceiveTypeView::Elements { elements, .. } => elems_wf(elements),
        _ => true,
    }
}

/// Reading a written command body gives it back, provided the next
/// character closes the envelope.
#[verifier::rlimit(100)]
pub proof fn lemma_p_cmd_body_ser(s: Seq<char>, i: int, c: crate::commands::ReceiveTypeView)
    requires
        0 <= i,
        cmd_wf(c),
        i + ser_cmd_body(c).len() < s.len(),
        forall|j: int| 0 <= j < ser_cmd_body(c).len() ==> s[i + j] == ser_cmd_body(c)[j],
        s[i + ser_cmd_body(c).len()] == '}',
    ensures
        p_cmd_body(s, i) == Option::Some((c, i + ser_cmd_body(c).len())),
{
    reveal(ser_cmd_body);
    reveal(p_cmd_body);
    reveal_strlit("\"type\":\"access_level_adjustment\",\"user\":");
    reveal_strlit("\"type\":\"selection\",\"elements\":");
    reveal_strlit("\"type\":\"canvas\",\"canvas\":");
    reveal_strlit("\"type\":\"elements\",\"elements\":");
    reveal_strlit(",\"access_level\":");
    reveal_strlit(",\"deleted_elements\":");
    let ha = lit("\"type\":\"access_level_adjustment\",\"user\":");
    let hs = lit("\"type\":\"selection\",\"elements\":");
    let hc = lit("\"type\":\"canvas\",\"canvas\":");
    let he = lit("\"type\":\"elements\",\"elements\":");
    match c {
        crate::commands::ReceiveTypeView::AccessLevelAdjustment { user, access_level } => {
            let k2 = lit(",\"access_level\":");
            let w = ha + ser_uuid_str(user) + k2 + ser_access(access_level);
            crate::digits::lemma_digits_len(user as nat, 32, 16);
            let o2 = ha.len() as int;
            let o3 = o2 + 38;
            let o4 = o3 + k2.len();
            assert forall|j: int| 0 <= j < ha.len() implies s[i + 0 + j] == ha[j] by {
                assert(s[i + (0 + j)] == w[0 + j]);
            }
            lemma_p_lit(s, i, ha);
            assert forall|j: int| 0 <= j < 38 implies s[i + o2 + j] == ser_uuid_str(user)[j] by {
                assert(s[i + (o2 + j)] == w[o2 + j]);
            }
            lemma_p_uuid_str_ser(s, i + o2, user);
            assert forall|j: int| 0 <= j < k2.len() implies s[i + o3 + j] == k2[j] by {
                assert(s[i + (o3 + j)] == w[o3 + j]);
            }
            lemma_p_lit(s, i + o3, k2);
            assert forall|j: int| 0 <= j < ser_access(access_level).len() implies s[i + o4 + j]
                == ser_access(access_level)[j] by {
                assert(s[i + (o4 + j)] == w[o4 + j]);
            }
            lemma_p_access_ser(s, i + o4, access_level);
        },
        crate::commands::ReceiveTypeView::Selection { elements } => {
            let w = hs + ser_ids(elements);
            assert forall|j: int| 0 <= j < hs.len() implies s[i + 0 + j] == hs[j] by {
                assert(s[i + (0 + j)] == w[0 + j]);
            }
            lemma_p_lit(s, i, hs);
            assert forall|j: int| 0 <= j < ser_ids(elements).len() implies s[i + hs.len() + j]
                == ser_ids(elements)[j] by {
                assert(s[i + (hs.len() + j)] == w[hs.len() + j]);
            }
            lemma_p_ids_ser(s, i + hs.len() as int, elements);
            assert(p_lit(s, i, ha) is None) by {
                if p_lit(s, i, ha) is Some {
                    assert(s.subrange(i, i + ha.len())[9] == 'a');
                    assert(s[i + 9] == hs[9]);
                }
            }
        },
        crate::commands::ReceiveTypeView::Canvas { canvas } => {
            let w = hc + ser_u16(canvas);
            assert forall|j: int| 0 <= j < hc.len() implies s[i + 0 + j] == hc[j] by {
                assert(s[i + (0 + j)] == w[0 + j]);
            }
            lemma_p_lit(s, i, hc);
            assert forall|j: int| 0 <= j < ser_u16(canvas).len() implies s[i + hc.len() + j]
                == ser_u16(canvas)[j] by {
                assert(s[i + (hc.len() + j)] == w[hc.len() + j]);
            }
            assert(s[i + hc.len() + ser_u16(canvas).len() as int] == '}');
            assert(!is_digit_b(s[i + hc.len() + ser_u16(canvas).len() as int], 10));
            lemma_p_u16_ser(s, i + hc.len() as int, canvas);
            assert(p_lit(s, i, ha) is None) by {
                if p_lit(s, i, ha) is Some {
                    assert(s.subrange(i, i + ha.len())[9] == 'a');
                    assert(s[i + 9] == hc[9]);
                }
            }
            assert(p_lit(s, i, hs) is None) by {
                if p_lit(s, i, hs) is Some {
                    assert(s.subrange(i, i + hs.len())[9] == 's');
                    assert(s[i + 9] == hc[9]);
                }
            }
        },
        crate::commands::ReceiveTypeView::Elements { elements, deleted_elements } => {
            let k2 = lit(",\"deleted_elements\":");
            let w = he + ser_elems(elements) + k2 + ser_ids(deleted_elements);
            let o2 = he.len() as int;
            let o3 = o2 + ser_elems(elements).len();
            let o4 = o3 + k2.len();
            assert forall|j: int| 0 <= j < he.len() implies s[i + 0 + j] == he[j] by {
                assert(s[i + (0 + j)] == w[0 + j]);
            }
            lemma_p_lit(s, i, he);
            assert forall|j: int| 0 <= j < ser_elems(elements).len() implies s[i + o2 + j]
                == ser_elems(elements)[j] by {
                assert(s[i + (o2 + j)] == w[o2 + j]);
            }
            lemma_p_elems_ser(s, i + o2, elements);
            assert forall|j: int| 0 <= j < k2.len() implies s[i + o3 + j] == k2[j] by {
                assert(s[i + (o3 + j)] == w[o3 + j]);
            }
            lemma_p_lit(s, i + o3, k2);
            assert forall|j: int| 0 <= j < ser_ids(deleted_elements).len() implies s[i + o4 + j]
                == ser_ids(deleted_elements)[j] by {
                assert(s[i + (o4 + j)] == w[o4 + j]);
            }
            lemma_p_ids_ser(s, i + o4, deleted_elements);
            assert(p_lit(s, i, ha) is None) by {
                if p_lit(s, i, ha) is Some {
                    assert(s.subrange(i, i + ha.len())[9] == 'a');
                    assert(s[i + 9] == he[9]);
                }
            }
            assert(p_lit(s, i, hs) is None) by {
                if p_lit(s, i, hs) is Some {
                    assert(s.subrange(i, i + hs.len())[10] == 'e');
                    assert(s[i + 10] == he[10]);
                }
            }
            assert(p_lit(s, i, hc) is None) by {
                if p_lit(s, i, hc) is Some {
                    assert(s.subrange(i, i + hc.len())[9] == 'c');
                    assert(s[i + 9] == he[9]);
                }
            }
        },
    }
}

/// A whole inbound command envelope.
pub open spec fn ser_envelope(d: crate::commands::ReceiveDataView) -> Seq<char> {
    match d.id {
        Option::Some(t) => lit("{\"id\":") + ser_str(t) + lit(",") + ser_cmd_body(d.receive)
            + lit("}"),
        Option::None => lit("{") + ser_cmd_body(d.receive) + lit("}"),
    }
}

/// Parses a whole inbound command envelope; the entire input must be the
/// envelope.
pub open spec fn p_envelope(s: Seq<char>) -> Option<crate::commands::ReceiveDataView> {
    if p_lit(s, 0, lit("{\"id\":")) is Some {
        match p_str(s, lit("{\"id\":").len() as int) {
            Option::None => Option::None,
            Option::Some((t, j0)) => match p_lit(s, j0, lit(",")) {
                Option::None => Option::None,
                Option::Some(j1) => match p_cmd_body(s, j1) {
                    Option::None => Option::None,
                    Option::Some((c, j2)) => match p_lit(s, j2, lit("}")) {
                        Option::None => Option::None,
                        Option::Some(j3) => if j3 == s.len() {
                            Option::Some(
                                crate::commands::ReceiveDataView {
                                    id: Option::Some(t),
                                    receive: c,
                                },
                            )
                        } else {
                            Option::None
                        },
                    },
                },
            },
        }
    } else if p_lit(s, 0, lit("{")) is Some {
        match p_cmd_body(s, 1) {
            Option::None => Option::None,
            Option::Some((c, j2)) => match p_lit(s, j2, lit("}")) {
                Option::None => Option::None,
                Option::Some(j3) => if j3 == s.len() {
                    Option::Some(
                        crate::commands::ReceiveDataView { id: Option::None, receive: c },
                    )
                } else {
                    Option::None
                },
            },
        }
    } else {
        Option::None
    }
}

/// Well-formedness of an envelope's tokens.
pub open spec fn envelope_wf(d: crate::commands::ReceiveDataView) -> bool {
    cmd_wf(d.receive)
}

/// Round trip of the wire protocol: parsing a serialized command frame
/// gives back exactly the envelope that was serialized.
#[verifier::rlimit(100)]
pub proof fn lemma_envelope_round_trip(d: crate::commands::ReceiveDataView)
    requires
        envelope_wf(d),
    ensures
        p_envelope(ser_envelope(d)) == Option::Some(d),
{
    reveal(ser_cmd_body);
    reveal_strlit("{\"id\":");
    reveal_strlit("{");
    reveal_strlit(",");
    reveal_strlit("}");
    reveal_strlit("\"type\":\"access_level_adjustment\",\"user\":");
    reveal_strlit("\"type\":\"selection\",\"elements\":");
    reveal_strlit("\"type\":\"canvas\",\"canvas\":");
    reveal_strlit("\"type\":\"elements\",\"elements\":");
    let s = ser_envelope(d);
    let body = ser_cmd_body(d.receive);
    assert(body.len() > 0 && body[0] == '"') by {
        match d.receive {
            crate::commands::ReceiveTypeView::AccessLevelAdjustment { .. } => {
                assert(body[0] == lit("\"type\":\"access_level_adjustment\",\"user\":")[0]);
            },
            crate::commands::ReceiveTypeView::Selection { .. } => {
                assert(body[0] == lit("\"type\":\"selection\",\"elements\":")[0]);
            },
            crate::commands::ReceiveTypeView::Canvas { .. } => {
                assert(body[0] == lit("\"type\":\"canvas\",\"canvas\":")[0]);
            },
            crate::commands::ReceiveTypeView::Elements { .. } => {
                assert(body[0] == lit("\"type\":\"elements\",\"elements\":")[0]);
            },
        }
    }
    match d.id {
        Option::Some(t) => {
            let k1 = lit("{\"id\":");
            let w = k1 + ser_str(t) + lit(",") + body + lit("}");
            assert(s == w);
            let o2 = k1.len() as int;
            let o3 = o2 + ser_str(t).len();
            let o4 = o3 + 1;
            let o5 = o4 + body.len();
            assert forall|j: int| 0 <= j < w.len() implies s[0 + j] == w[j] by {}
            assert forall|j: int| 0 <= j < k1.len() implies s[0 + j] == k1[j] by {
                assert(s[0 + j] == w[j]);
            }
            lemma_p_lit(s, 0, k1);
            assert forall|j: int| 0 <= j < ser_str(t).len() implies s[o2 + j] == ser_str(
                t,
            )[j] by {
                assert(s[0 + (o2 + j)] == w[o2 + j]);
            }
            lemma_p_str_ser(s, o2, t);
            assert forall|j: int| 0 <= j < 1 implies s[o3 + j] == lit(",")[j] by {
                assert(s[0 + (o3 + j)] == w[o3 + j]);
            }
            lemma_p_lit(s, o3, lit(","));
            assert forall|j: int| 0 <= j < body.len() implies s[o4 + j] == body[j] by {
                assert(s[0 + (o4 + j)] == w[o4 + j]);
            }
            assert forall|j: int| 0 <= j < 1 implies s[o5 + j] == lit("}")[j] by {
                assert(s[0 + (o5 + j)] == w[o5 + j]);
            }
            assert(s[o4 + body.len() as int] == '}');
            lemma_p_cmd_body_ser(s, o4, d.receive);
            lemma_p_lit(s, o5, lit("}"));
            assert(crate::commands::ReceiveDataView {
                id: Option::Some(t),
                receive: d.receive,
            } =~= d);
        },
        Option::None => {
            let w = lit("{") + body + lit("}");
            assert(s == w);
            let o4: int = 1;
            let o5 = o4 + body.len();
            assert forall|j: int| 0 <= j < 1 implies s[0 + j] == lit("{")[j] by {
                assert(s[0 + j] == w[j]);
            }
            lemma_p_lit(s, 0, lit("{"));
            assert forall|j: int| 0 <= j < body.len() implies s[o4 + j] == body[j] by {
                assert(s[0 + (o4 + j)] == w[o4 + j]);
            }
            assert forall|j: int| 0 <= j < 1 implies s[o5 + j] == lit("}")[j] by {
                assert(s[0 + (o5 + j)] == w[o5 + j]);
            }
            assert(s[o4 + body.len() as int] == '}');
            lemma_p_cmd_body_ser(s, o4, d.receive);
            lemma_p_lit(s, o5, lit("}"));
            // the id-bearing head cannot match: the body starts with
            // `"type` whose second character is `t`, not `i`
            assert(p_lit(s, 0, lit("{\"id\":")) is None) by {
                if p_lit(s, 0, lit("{\"id\":")) is Some {
                    assert(s.subrange(0, 6)[2] == 'i');
                    assert(s[2] == body[1]);
                    match d.receive {
                        crate::commands::ReceiveTypeView::AccessLevelAdjustment { .. } => {
                            assert(body[1] == lit(
                                "\"type\":\"access_level_adjustment\",\"user\":",
                            )[1]);
                        },
                        crate::commands::ReceiveTypeView::Selection { .. } => {
                            assert(body[1] == lit("\"type\":\"selection\",\"elements\":")[1]);
                        },
                        crate::commands::ReceiveTypeView::Canvas { .. } => {
                            assert(body[1] == lit("\"type\":\"canvas\",\"canvas\":")[1]);
                        },
                        crate::commands::ReceiveTypeView::Elements { .. } => {
                            assert(body[1] == lit("\"type\":\"elements\",\"elements\":")[1]);
                        },
                    }
                }
            }
            assert(crate::commands::ReceiveDataView {
                id: Option::None,
                receive: d.receive,
            } =~= d);
        },
    }
}

/// Compares the characters at `i` against a literal.
pub(crate) fn e_lit(s: &Vec<char>, i: usize, l: &str) -> (r: Option<usize>)
    requires
        i <= s@.len(),
    ensures
        match r {
            Some(j) => p_lit(s@, i as int, l@) == Option::Some(j as int) && i <= j <= s@.len(),
            None => p_lit(s@, i as int, l@) is None,
        },
{
    let n = l.unicode_len();
    let slen = s.len();
    if n > slen - i {
        return None;
    }
    let mut k: usize = 0;
    while k < n
        invariant
            k <= n,
            n == l@.len(),
            slen == s@.len(),
            i + n <= slen,
            forall|j: int| 0 <= j < k ==> s@[i + j] == l@[j],
        decreases n - k,
    {
        if s[i + k] != l.get_char(k) {
            proof {
                assert(s@.subrange(i as int, i + l@.len()) != l@) by {
                    assert(s@.subrange(i as int, i + l@.len())[k as int] != l@[k as int]);
                }
            }
            return None;
        }
        k = k + 1;
    }
    proof {
        assert(s@.subrange(i as int, i + l@.len()) =~= l@);
    }
    Some(i + n)
}

/// The value of one hexadecimal digit of either case, if it is one.
fn hex_digit_value(c: char) -> (r: Option<u32>)
    ensures
        match r {
            Some(v) => crate::color::is_hex_digit(c) && v as int == hex_val_any(c) && v < 16,
            None => !crate::color::is_hex_digit(c),
        },
{
    let u = c as u32;
    if 48 <= u && u <= 57 {
        Some(u - 48)
    } else if 97 <= u && u <= 102 {
        Some(u - 87)
    } else if 65 <= u && u <= 70 {
        Some(u - 55)
    } else {
        None
    }
}

/// Reads four hexadecimal digits at `i` as a code point.
fn read_hex4(s: &Vec<char>, i: usize) -> (r: Option<u32>)
    requires
        i <= s@.len(),
    ensures
        match r {
            Some(v) => hex4_ok(s@, i as int) && v as int == hex4(s@, i as int) && v <= 0xFFFF,
            None => !hex4_ok(s@, i as int),
        },
{
    if s.len() - i < 4 {
        return None;
    }
    let d0 = match hex_digit_value(s[i]) {
        Some(v) => v,
        None => {
            return None;
        },
    };
    let d1 = match hex_digit_value(s[i + 1]) {
        Some(v) => v,
        None => {
            return None;
        },
    };
    let d2 = match hex_digit_value(s[i + 2]) {
        Some(v) => v,
        None => {
            return None;
        },
    };
    let d3 = match hex_digit_value(s[i + 3]) {
        Some(v) => v,
        None => {
            return None;
        },
    };
    Some(d0 * 4096 + d1 * 256 + d2 * 16 + d3)
}

/// Parses a quoted string at `i`, unescaping it.
pub(crate) fn e_str(s: &Vec<char>, i: usize) -> (r: Option<(String, usize)>)
    requires
        i <= s@.len(),
    ensures
        match r {
            Some((t, j)) => p_str(s@, i as int) == Option::Some((t@, j as int)) && i <= j
                <= s@.len(),
            None => p_str(s@, i as int) is None,
        },
{
    if i >= s.len() || s[i] != '"' {
        return None;
    }
    let mut acc = String::new();
    let mut k: usize = i + 1;
    loop
        invariant
            i < s@.len(),
            s@[i as int] == '"',
            i + 1 <= k <= s@.len(),
            p_str_body(s@, i + 1, Seq::empty()) == p_str_body(s@, k as int, acc@),
        decreases s@.len() - k,
    {
        if k >= s.len() {
            return None;
        }
        let c = s[k];
        if c == '"' {
            return Some((acc, k + 1));
        }
        if c == '\\' {
            if s.len() - k < 2 {
                return None;
            }
            let e = s[k + 1];
            if e == '"' || e == '\\' || e == '/' {
                crate::color::push_char(&mut acc, e);
                k = k + 2;
            } else if e == 'n' {
                crate::color::push_char(&mut acc, '\n');
                k = k + 2;
            } else if e == 't' {
                crate::color::push_char(&mut acc, '\t');
                k = k + 2;
            } else if e == 'r' {
                crate::color::push_char(&mut acc, '\r');
                k = k + 2;
            } else if e == 'b' {
                crate::color::push_char(&mut acc, '\u{8}');
                k = k + 2;
            } else if e == 'f' {
                crate::color::push_char(&mut acc, '\u{c}');
                k = k + 2;
            } else if e == 'u' {
                let v = match read_hex4(s, k + 2) {
                    Some(v) => v,
                    None => {
                        return None;
                    },
                };
                if 0xD800 <= v && v < 0xDC00 {
                    // a high surrogate needs its low partner
                    if s.len() - k >= 12 && s[k + 6] == '\\' && s[k + 7] == 'u' {
                        let w = match read_hex4(s, k + 8) {
                            Some(w) => w,
                            None => {
                                return None;
                            },
                        };
                        if 0xDC00 <= w && w < 0xE000 {
                            let code = 0x10000 + (v - 0xD800) * 0x400 + (w - 0xDC00);
                            match char::from_u32(code) {
                                Some(ch) => {
                                    crate::color::push_char(&mut acc, ch);
                                    k = k + 12;
                                },
                                None => {
                                    proof {
                                        assert(false);
                                    }
                                    return None;
                                },
                            }
                        } else {
                            return None;
                        }
                    } else {
                        return None;
                    }
                } else if 0xDC00 <= v && v < 0xE000 {
                    return None;
                } else {
                    match char::from_u32(v) {
                        Some(ch) => {
                            crate::color::push_char(&mut acc, ch);
                            k = k + 6;
                        },
                        None => {
                            proof {
                                assert(false);
                            }
                            return None;
                        },
                    }
                }
            } else {
                return None;
            }
        } else {
            crate::color::push_char(&mut acc, c);
            k = k + 1;
        }
    }
}

/// Parses a quoted identifier at `i`.
pub(crate) fn e_uuid_str(s: &Vec<char>, i: usize) -> (r: Option<(u128, usize)>)
    requires
        i <= s@.len(),
    ensures
        match r {
            Some((u, j)) => p_uuid_str(s@, i as int) == Option::Some((u, j as int)) && i <= j
                <= s@.len(),
            None => p_uuid_str(s@, i as int) is None,
        },
{
    if i >= s.len() || s[i] != '"' {
        return None;
    }
    match crate::ident::e_uuid(s, i + 1) {
        None => None,
        Some((u, j)) => {
            if j < s.len() && s[j] == '"' {
                Some((u, j + 1))
            } else {
                None
            }
        },
    }
}

/// Parses `null` or a quoted identifier at `i`.
pub(crate) fn e_opt_uuid(s: &Vec<char>, i: usize) -> (r: Option<(Option<u128>, usize)>)
    requires
        i <= s@.len(),
    ensures
        match r {
            Some((o, j)) => p_opt_uuid(s@, i as int) == Option::Some((o, j as int)) && i <= j
                <= s@.len(),
            None => p_opt_uuid(s@, i as int) is None,
        },
{
    if i < s.len() && s[i] == 'n' {
        proof {
            reveal_strlit("null");
            assert(lit("null") =~= seq!['n', 'u', 'l', 'l']);
        }
        match e_lit(s, i, "null") {
            Some(j) => Some((None, j)),
            None => None,
        }
    } else {
        match e_uuid_str(s, i) {
            Some((u, j)) => Some((Some(u), j)),
            None => None,
        }
    }
}

/// Parses a decimal `u16` at `i`.
pub(crate) fn e_u16(s: &Vec<char>, i: usize) -> (r: Option<(u16, usize)>)
    requires
        i <= s@.len(),
    ensures
        match r {
            Some((n, j)) => p_u16(s@, i as int) == Option::Some((n, j as int)) && i <= j
                <= s@.len(),
            None => p_u16(s@, i as int) is None,
        },
{
    match crate::digits::e_dec_u64(s, i) {
        None => None,
        Some((v, j)) => {
            if v <= 65535 {
                Some((v as u16, j))
            } else {
                None
            }
        },
    }
}

/// Parses a number token at `i`.
pub(crate) fn e_num(s: &Vec<char>, i: usize) -> (r: Option<(crate::element::NumLit, usize)>)
    requires
        i <= s@.len(),
    ensures
        match r {
            Some((t, j)) => p_num(s@, i as int) == Option::Some((t@, j as int)) && i <= j
                <= s@.len(),
            None => p_num(s@, i as int) is None,
        },
{
    let mut k: usize = i;
    let mut acc = String::new();
    while k < s.len() && is_num_char_exec(s[k])
        invariant
            i <= k <= s@.len(),
            p_num_run(s@, i as int) == p_num_run(s@, k as int),
            acc@ == s@.subrange(i as int, k as int),
        decreases s@.len() - k,
    {
        crate::color::push_char(&mut acc, s[k]);
        proof {
            assert(acc@ =~= s@.subrange(i as int, k + 1));
        }
        k = k + 1;
    }
    proof {
        assert(p_num_run(s@, k as int) == k as int);
    }
    if k == i {
        None
    } else {
        Some((crate::element::NumLit { text: acc }, k))
    }
}

/// Turns a Unicode code point into its character.
///
/// Relies on `char::from_u32`: `Some` exactly for the valid scalar
/// values (below the surrogate range, or past it up to 0x10FFFF), and
/// the character then carries that code point.
pub assume_specification[ char::from_u32 ](v: u32) -> (r: Option<char>)
    ensures
        (r is Some) == (v < 0xD800 || (0xE000 <= v && v <= 0x10FFFF)),
        r matches Some(c) ==> c == v as char,
;

/// Whether a character belongs to the number alphabet.
pub(crate) fn is_num_char_exec(c: char) -> (r: bool)
    ensures
        r == is_num_char(c),
{
    let u = c as u32;
    (48 <= u && u <= 57) || c == '-' || c == '+' || c == '.' || c == 'e' || c == 'E'
}

fn e_access(s: &Vec<char>, i: usize) -> (r: Option<(crate::user::AccessLevel, usize)>)
    requires
        i <= s@.len(),
    ensures
        match r {
            Some((v, j)) => p_access(s@, i as int) == Option::Some((v, j as int)) && i <= j
                <= s@.len(),
            None => p_access(s@, i as int) is None,
        },
{
    proof {
        reveal_strlit("\"view\"");
        reveal_strlit("\"edit\"");
        reveal_strlit("\"admin\"");
        assert(lit("\"view\"") =~= ser_access(crate::user::AccessLevel::View));
        assert(lit("\"edit\"") =~= ser_access(crate::user::AccessLevel::Edit));
        assert(lit("\"admin\"") =~= ser_access(crate::user::AccessLevel::Admin));
    }
    if let Some(j) = e_lit(s, i, "\"view\"") {
        Some((crate::user::AccessLevel::View, j))
    } else if let Some(j) = e_lit(s, i, "\"edit\"") {
        Some((crate::user::AccessLevel::Edit, j))
    } else if let Some(j) = e_lit(s, i, "\"admin\"") {
        Some((crate::user::AccessLevel::Admin, j))
    } else {
        None
    }
}

fn e_align(s: &Vec<char>, i: usize) -> (r: Option<(crate::element::TextAlignment, usize)>)
    requires
        i <= s@.len(),
    ensures
        match r {
            Some((v, j)) => p_align(s@, i as int) == Option::Some((v, j as int)) && i <= j
                <= s@.len(),
            None => p_align(s@, i as int) is None,
        },
{
    proof {
        reveal_strlit("\"left\"");
        reveal_strlit("\"center\"");
        reveal_strlit("\"right\"");
        reveal_strlit("\"justify\"");
        assert(lit("\"left\"") =~= ser_align(crate::element::TextAlignment::Left));
        assert(lit("\"center\"") =~= ser_align(crate::element::TextAlignment::Center));
        assert(lit("\"right\"") =~= ser_align(crate::element::TextAlignment::Right));
        assert(lit("\"justify\"") =~= ser_align(crate::element::TextAlignment::Justify));
    }
    if let Some(j) = e_lit(s, i, "\"left\"") {
        Some((crate::element::TextAlignment::Left, j))
    } else if let Some(j) = e_lit(s, i, "\"center\"") {
        Some((crate::element::TextAlignment::Center, j))
    } else if let Some(j) = e_lit(s, i, "\"right\"") {
        Some((crate::element::TextAlignment::Right, j))
    } else if let Some(j) = e_lit(s, i, "\"justify\"") {
        Some((crate::element::TextAlignment::Justify, j))
    } else {
        None
    }
}

fn e_scale(s: &Vec<char>, i: usize) -> (r: Option<(crate::element::ScaleRate, usize)>)
    requires
        i <= s@.len(),
    ensures
        match r {
            Some((v, j)) => p_scale(s@, i as int) == Option::Some((v, j as int)) && i <= j
                <= s@.len(),
            None => p_scale(s@, i as int) is None,
        },
{
    proof {
        reveal_strlit("\"none\"");
        reveal_strlit("\"base\"");
        assert(lit("\"none\"") =~= ser_scale(crate::element::ScaleRate::Plain));
        assert(lit("\"base\"") =~= ser_scale(crate::element::ScaleRate::Base));
    }
    if let Some(j) = e_lit(s, i, "\"none\"") {
        Some((crate::element::ScaleRate::Plain, j))
    } else if let Some(j) = e_lit(s, i, "\"base\"") {
        Some((crate::element::ScaleRate::Base, j))
    } else {
        None
    }
}

fn e_opt_str(s: &Vec<char>, i: usize) -> (r: Option<(Option<String>, usize)>)
    requires
        i <= s@.len(),
    ensures
        match r {
            Some((o, j)) => p_opt_str(s@, i as int) == Option::Some(
                (crate::element::opt_str_view(o), j as int),
            ) && i <= j <= s@.len(),
            None => p_opt_str(s@, i as int) is None,
        },
{
    if i < s.len() && s[i] == 'n' {
        proof {
            reveal_strlit("null");
            assert(lit("null") =~= seq!['n', 'u', 'l', 'l']);
        }
        match e_lit(s, i, "null") {
            Some(j) => Some((None, j)),
            None => None,
        }
    } else {
        match e_str(s, i) {
            Some((t, j)) => Some((Some(t), j)),
            None => None,
        }
    }
}

fn e_font(s: &Vec<char>, i: usize) -> (r: Option<(crate::element::TextFont, usize)>)
    requires
        i <= s@.len(),
    ensures
        match r {
            Some((v, j)) => p_font(s@, i as int) == Option::Some((v@, j as int)) && i <= j
                <= s@.len(),
            None => p_font(s@, i as int) is None,
        },
{
    proof {
        reveal_strlit("{\"font_type\":\"");
        reveal_strlit("sans\",\"custom_font_family\":");
        reveal_strlit("serif\",\"custom_font_family\":");
        reveal_strlit("mono\",\"custom_font_family\":");
        reveal_strlit("}");
    }
    let j0 = match e_lit(s, i, "{\"font_type\":\"") {
        None => {
            return None;
        },
        Some(j) => j,
    };
    let sans = e_lit(s, j0, "sans\",\"custom_font_family\":");
    let serif = e_lit(s, j0, "serif\",\"custom_font_family\":");
    let mono = e_lit(s, j0, "mono\",\"custom_font_family\":");
    let jf = if let Some(j) = sans {
        j
    } else if let Some(j) = serif {
        j
    } else if let Some(j) = mono {
        j
    } else {
        return None;
    };
    let (fam, j1) = match e_opt_str(s, jf) {
        None => {
            return None;
        },
        Some(p) => p,
    };
    let j2 = match e_lit(s, j1, "}") {
        None => {
            return None;
        },
        Some(j) => j,
    };
    if sans.is_some() {
        Some((crate::element::TextFont::Sans(fam), j2))
    } else if serif.is_some() {
        Some((crate::element::TextFont::Serif(fam), j2))
    } else {
        Some((crate::element::TextFont::Mono(fam), j2))
    }
}

fn e_anchor(s: &Vec<char>, i: usize) -> (r: Option<(crate::element::ElementAnchor, usize)>)
    requires
        i <= s@.len(),
    ensures
        match r {
            Some((v, j)) => p_anchor(s@, i as int) == Option::Some((v@, j as int)) && i <= j
                <= s@.len(),
            None => p_anchor(s@, i as int) is None,
        },
{
    proof {
        reveal_strlit("{\"top\":");
        reveal_strlit(",\"left\":");
        reveal_strlit("}");
    }
    let j0 = match e_lit(s, i, "{\"top\":") {
        None => {
            return None;
        },
        Some(j) => j,
    };
    let (top, j1) = match e_num(s, j0) {
        None => {
            return None;
        },
        Some(p) => p,
    };
    let j2 = match e_lit(s, j1, ",\"left\":") {
        None => {
            return None;
        },
        Some(j) => j,
    };
    let (left, j3) = match e_num(s, j2) {
        None => {
            return None;
        },
        Some(p) => p,
    };
    let j4 = match e_lit(s, j3, "}") {
        None => {
            return None;
        },
        Some(j) => j,
    };
    let a = crate::element::ElementAnchor { top, left };
    proof {
        assert(p_anchor(s@, i as int) == Option::Some((a@, j4 as int)));
    }
    Some((a, j4))
}

fn e_crop(s: &Vec<char>, i: usize) -> (r: Option<(crate::element::ImageCrop, usize)>)
    requires
        i <= s@.len(),
    ensures
        match r {
            Some((v, j)) => p_crop(s@, i as int) == Option::Some((v@, j as int)) && i <= j
                <= s@.len(),
            None => p_crop(s@, i as int) is None,
        },
{
    proof {
        reveal_strlit("{\"left\":");
        reveal_strlit(",\"top\":");
        reveal_strlit(",\"right\":");
        reveal_strlit(",\"bottom\":");
        reveal_strlit("}");
    }
    let j0 = match e_lit(s, i, "{\"left\":") {
        None => {
            return None;
        },
        Some(j) => j,
    };
    let (left, j1) = match e_num(s, j0) {
        None => {
            return None;
        },
        Some(p) => p,
    };
    let j2 = match e_lit(s, j1, ",\"top\":") {
        None => {
            return None;
        },
        Some(j) => j,
    };
    let (top, j3) = match e_num(s, j2) {
        None => {
            return None;
        },
        Some(p) => p,
    };
    let j4 = match e_lit(s, j3, ",\"right\":") {
        None => {
            return None;
        },
        Some(j) => j,
    };
    let (right, j5) = match e_num(s, j4) {
        None => {
            return None;
        },
        Some(p) => p,
    };
    let j6 = match e_lit(s, j5, ",\"bottom\":") {
        None => {
            return None;
        },
        Some(j) => j,
    };
    let (bottom, j7) = match e_num(s, j6) {
        None => {
            return None;
        },
        Some(p) => p,
    };
    let j8 = match e_lit(s, j7, "}") {
        None => {
            return None;
        },
        Some(j) => j,
    };
    let c = crate::element::ImageCrop { left, top, right, bottom };
    proof {
        assert(p_crop(s@, i as int) == Option::Some((c@, j8 as int)));
    }
    Some((c, j8))
}

#[verifier::rlimit(100)]
fn e_text_fields(s: &Vec<char>, i: usize) -> (r: Option<(crate::element::ElementText, usize)>)
    requires
        i <= s@.len(),
    ensures
        match r {
            Some((v, j)) => p_text_fields(s@, i as int) == Option::Some((v@, j as int)) && i <= j
                <= s@.len(),
            None => p_text_fields(s@, i as int) is None,
        },
{
    proof {
        reveal(p_text_fields);
        reveal_strlit("\"content\":");
        reveal_strlit(",\"align\":");
        reveal_strlit(",\"color\":");
        reveal_strlit(",\"size\":");
        reveal_strlit(",\"font\":");
        reveal_strlit(",\"background_color\":");
        reveal_strlit(",\"background_blur\":");
    }
    let j0 = match e_lit(s, i, "\"content\":") {
        None => {
            return None;
        },
        Some(j) => j,
    };
    let (content, j1) = match e_str(s, j0) {
        None => {
            return None;
        },
        Some(p) => p,
    };
    let j2 = match e_lit(s, j1, ",\"align\":") {
        None => {
            return None;
        },
        Some(j) => j,
    };
    let (align, j3) = match e_align(s, j2) {
        None => {
            return None;
        },
        Some(p) => p,
    };
    let j4 = match e_lit(s, j3, ",\"color\":") {
        None => {
            return None;
        },
        Some(j) => j,
    };
    let (color_text, j5) = match e_str(s, j4) {
        None => {
            return None;
        },
        Some(p) => p,
    };
    let j6 = match e_lit(s, j5, ",\"size\":") {
        None => {
            return None;
        },
        Some(j) => j,
    };
    let (size, j7) = match e_num(s, j6) {
        None => {
            return None;
        },
        Some(p) => p,
    };
    let j8 = match e_lit(s, j7, ",\"font\":") {
        None => {
            return None;
        },
        Some(j) => j,
    };
    let (font, j9) = match e_font(s, j8) {
        None => {
            return None;
        },
        Some(p) => p,
    };
    let j10 = match e_lit(s, j9, ",\"background_color\":") {
        None => {
            return None;
        },
        Some(j) => j,
    };
    let (bg_text, j11) = match e_str(s, j10) {
        None => {
            return None;
        },
        Some(p) => p,
    };
    let j12 = match e_lit(s, j11, ",\"background_blur\":") {
        None => {
            return None;
        },
        Some(j) => j,
    };
    let (blur, j13) = match e_num(s, j12) {
        None => {
            return None;
        },
        Some(p) => p,
    };
    let t = crate::element::ElementText {
        content,
        align,
        color: crate::color::color_from_text(color_text),
        size,
        font,
        background_color: crate::color::color_from_text(bg_text),
        background_blur: blur,
    };
    proof {
        assert(p_text_fields(s@, i as int) matches Option::Some((tv, jj)) && tv =~= t@ && jj
            == j13 as int);
    }
    Some((t, j13))
}

#[verifier::rlimit(100)]
fn e_imgtext(s: &Vec<char>, i: usize) -> (r: Option<(crate::element::ImageText, usize)>)
    requires
        i <= s@.len(),
    ensures
        match r {
            Some((v, j)) => p_imgtext(s@, i as int) == Option::Some((v@, j as int)) && i <= j
                <= s@.len(),
            None => p_imgtext(s@, i as int) is None,
        },
{
    proof {
        reveal(p_imgtext);
        reveal_strlit("{\"x\":");
        reveal_strlit(",\"y\":");
        reveal_strlit(",\"anchor\":");
        reveal_strlit(",\"text\":{");
        reveal_strlit("}}");
    }
    let j0 = match e_lit(s, i, "{\"x\":") {
        None => {
            return None;
        },
        Some(j) => j,
    };
    let (x, j1) = match e_num(s, j0) {
        None => {
            return None;
        },
        Some(p) => p,
    };
    let j2 = match e_lit(s, j1, ",\"y\":") {
        None => {
            return None;
        },
        Some(j) => j,
    };
    let (y, j3) = match e_num(s, j2) {
        None => {
            return None;
        },
        Some(p) => p,
    };
    let j4 = match e_lit(s, j3, ",\"anchor\":") {
        None => {
            return None;
        },
        Some(j) => j,
    };
    let (anchor, j5) = match e_anchor(s, j4) {
        None => {
            return None;
        },
        Some(p) => p,
    };
    let j6 = match e_lit(s, j5, ",\"text\":{") {
        None => {
            return None;
        },
        Some(j) => j,
    };
    let (text, j7) = match e_text_fields(s, j6) {
        None => {
            return None;
        },
        Some(p) => p,
    };
    let j8 = match e_lit(s, j7, "}}") {
        None => {
            return None;
        },
        Some(j) => j,
    };
    let it = crate::element::ImageText { x, y, anchor, text };
    proof {
        assert(p_imgtext(s@, i as int) matches Option::Some((tv, jj)) && tv =~= it@ && jj
            == j8 as int);
    }
    Some((it, j8))
}

fn e_imgtexts(s: &Vec<char>, i: usize) -> (r: Option<(Vec<crate::element::ImageText>, usize)>)
    requires
        i <= s@.len(),
    ensures
        match r {
            Some((v, j)) => p_imgtexts(s@, i as int) == Option::Some(
                (v@.map_values(|t: crate::element::ImageText| t@), j as int),
            ) && i <= j <= s@.len(),
            None => p_imgtexts(s@, i as int) is None,
        },
{
    if !(i < s.len() && s[i] == '[') {
        return None;
    }
    if i + 1 < s.len() && s[i + 1] == ']' {
        let v: Vec<crate::element::ImageText> = Vec::new();
        proof {
            assert(v@.map_values(|t: crate::element::ImageText| t@)
                =~= Seq::<crate::element::ImageTextView>::empty());
        }
        return Some((v, i + 2));
    }
    let (first, j0) = match e_imgtext(s, i + 1) {
        None => {
            return None;
        },
        Some(p) => p,
    };
    if !(i + 1 < j0) {
        return None;
    }
    let mut acc: Vec<crate::element::ImageText> = Vec::new();
    acc.push(first);
    proof {
        assert(acc@.map_values(|t: crate::element::ImageText| t@) =~= seq![first@]);
    }
    let mut k: usize = j0;
    loop
        invariant
            i + 1 < k <= s@.len(),
            p_imgtexts(s@, i as int) == p_imgtexts_more(
                s@,
                k as int,
                acc@.map_values(|t: crate::element::ImageText| t@),
            ),
        decreases s@.len() - k,
    {
        let ghost accv = acc@.map_values(|t: crate::element::ImageText| t@);
        if k >= s.len() {
            return None;
        }
        if s[k] == ']' {
            proof {
                assert(p_imgtexts_more(s@, k as int, accv) == Option::Some(
                    (accv, k + 1 as int),
                ));
            }
            return Some((acc, k + 1));
        }
        if s[k] != ',' {
            return None;
        }
        let (t, j) = match e_imgtext(s, k + 1) {
            None => {
                return None;
            },
            Some(p) => p,
        };
        if !(k + 1 < j) {
            return None;
        }
        acc.push(t);
        proof {
            assert(acc@.map_values(|t2: crate::element::ImageText| t2@) =~= accv.push(t@));
        }
        k = j;
    }
}

#[verifier::rlimit(100)]
fn e_image_fields(s: &Vec<char>, i: usize) -> (r: Option<(crate::element::ElementImage, usize)>)
    requires
        i <= s@.len(),
    ensures
        match r {
            Some((v, j)) => p_image_fields(s@, i as int) == Option::Some((v@, j as int)) && i
                <= j <= s@.len(),
            None => p_image_fields(s@, i as int) is None,
        },
{
    proof {
        reveal(p_image_fields);
        reveal(p_image_head);
        reveal(p_image_tail);
        reveal_strlit("\"url\":");
        reveal_strlit(",\"alt\":");
        reveal_strlit(",\"scale_x\":");
        reveal_strlit(",\"scale_y\":");
        reveal_strlit(",\"crop\":");
        reveal_strlit(",\"outline_color\":");
        reveal_strlit(",\"outline_thickness\":");
        reveal_strlit(",\"outline_blur\":");
        reveal_strlit(",\"text\":");
    }
    let j0 = match e_lit(s, i, "\"url\":") {
        None => {
            return None;
        },
        Some(j) => j,
    };
    let (url, j1) = match e_str(s, j0) {
        None => {
            return None;
        },
        Some(p) => p,
    };
    let j2 = match e_lit(s, j1, ",\"alt\":") {
        None => {
            return None;
        },
        Some(j) => j,
    };
    let (alt, j3) = match e_str(s, j2) {
        None => {
            return None;
        },
        Some(p) => p,
    };
    let j4 = match e_lit(s, j3, ",\"scale_x\":") {
        None => {
            return None;
        },
        Some(j) => j,
    };
    let (sx, j5) = match e_num(s, j4) {
        None => {
            return None;
        },
        Some(p) => p,
    };
    let j6 = match e_lit(s, j5, ",\"scale_y\":") {
        None => {
            return None;
        },
        Some(j) => j,
    };
    let (sy, j7) = match e_num(s, j6) {
        None => {
            return None;
        },
        Some(p) => p,
    };
    let j8 = match e_lit(s, j7, ",\"crop\":") {
        None => {
            return None;
        },
        Some(j) => j,
    };
    let (crop, j9) = match e_crop(s, j8) {
        None => {
            return None;
        },
        Some(p) => p,
    };
    let j10 = match e_lit(s, j9, ",\"outline_color\":") {
        None => {
            return None;
        },
        Some(j) => j,
    };
    let (oc_text, j11) = match e_str(s, j10) {
        None => {
            return None;
        },
        Some(p) => p,
    };
    let j12 = match e_lit(s, j11, ",\"outline_thickness\":") {
        None => {
            return None;
        },
        Some(j) => j,
    };
    let (ot, j13) = match e_num(s, j12) {
        None => {
            return None;
        },
        Some(p) => p,
    };
    let j14 = match e_lit(s, j13, ",\"outline_blur\":") {
        None => {
            return None;
        },
        Some(j) => j,
    };
    let (ob, j15) = match e_num(s, j14) {
        None => {
            return None;
        },
        Some(p) => p,
    };
    let j16 = match e_lit(s, j15, ",\"text\":") {
        None => {
            return None;
        },
        Some(j) => j,
    };
    let (txt, j17) = match e_imgtexts(s, j16) {
        None => {
            return None;
        },
        Some(p) => p,
    };
    let m = crate::element::ElementImage {
        url,
        alt,
        scale_x: sx,
        scale_y: sy,
        crop,
        outline_color: crate::color::color_from_text(oc_text),
        outline_thickness: ot,
        outline_blur: ob,
        text: txt,
    };
    proof {
        assert(p_image_fields(s@, i as int) matches Option::Some((mv, jj)) && mv =~= m@ && jj
            == j17 as int);
    }
    Some((m, j17))
}

fn e_payload(s: &Vec<char>, i: usize) -> (r: Option<(crate::element::ElementType, usize)>)
    requires
        i <= s@.len(),
    ensures
        match r {
            Some((v, j)) => p_payload(s@, i as int) == Option::Some((v@, j as int)) && i <= j
                <= s@.len(),
            None => p_payload(s@, i as int) is None,
        },
{
    proof {
        reveal(p_payload);
        reveal_strlit("{\"type\":\"text\",");
        reveal_strlit("{\"type\":\"image\",");
        reveal_strlit("}");
    }
    if let Some(j0) = e_lit(s, i, "{\"type\":\"text\",") {
        let (t, j1) = match e_text_fields(s, j0) {
            None => {
                return None;
            },
            Some(p) => p,
        };
        let j2 = match e_lit(s, j1, "}") {
            None => {
                return None;
            },
            Some(j) => j,
        };
        Some((crate::element::ElementType::Text(t), j2))
    } else if let Some(j0) = e_lit(s, i, "{\"type\":\"image\",") {
        let (m, j1) = match e_image_fields(s, j0) {
            None => {
                return None;
            },
            Some(p) => p,
        };
        let j2 = match e_lit(s, j1, "}") {
            None => {
                return None;
            },
            Some(j) => j,
        };
        Some((crate::element::ElementType::Image(m), j2))
    } else {
        None
    }
}

#[verifier::rlimit(100)]
fn e_element(s: &Vec<char>, i: usize) -> (r: Option<(crate::element::Element, usize)>)
    requires
        i <= s@.len(),
    ensures
        match r {
            Some((v, j)) => p_element(s@, i as int) == Option::Some((v@, j as int)) && i <= j
                <= s@.len(),
            None => p_element(s@, i as int) is None,
        },
{
    proof {
        reveal(p_element);
        reveal(p_element_head);
        reveal(p_element_tail);
        reveal_strlit("{\"uuid\":");
        reveal_strlit(",\"ty\":");
        reveal_strlit(",\"last_edited_by\":");
        reveal_strlit(",\"selected_by\":");
        reveal_strlit(",\"x\":");
        reveal_strlit(",\"y\":");
        reveal_strlit(",\"anchor\":");
        reveal_strlit(",\"rotation\":");
        reveal_strlit(",\"scale_rate\":");
        reveal_strlit(",\"z_index\":");
        reveal_strlit(",\"tags\":");
        reveal_strlit("}");
    }
    let j0 = match e_lit(s, i, "{\"uuid\":") {
        None => {
            return None;
        },
        Some(j) => j,
    };
    let (uuid, j1) = match e_uuid_str(s, j0) {
        None => {
            return None;
        },
        Some(p) => p,
    };
    let j2 = match e_lit(s, j1, ",\"ty\":") {
        None => {
            return None;
        },
        Some(j) => j,
    };
    let (ty, j3) = match e_payload(s, j2) {
        None => {
            return None;
        },
        Some(p) => p,
    };
    let j4 = match e_lit(s, j3, ",\"last_edited_by\":") {
        None => {
            return None;
        },
        Some(j) => j,
    };
    let (leb, j5) = match e_opt_uuid(s, j4) {
        None => {
            return None;
        },
        Some(p) => p,
    };
    let j6 = match e_lit(s, j5, ",\"selected_by\":") {
        None => {
            return None;
        },
        Some(j) => j,
    };
    let (sb, j7) = match e_opt_uuid(s, j6) {
        None => {
            return None;
        },
        Some(p) => p,
    };
    let j8 = match e_lit(s, j7, ",\"x\":") {
        None => {
            return None;
        },
        Some(j) => j,
    };
    let (x, j9) = match e_num(s, j8) {
        None => {
            return None;
        },
        Some(p) => p,
    };
    let j10 = match e_lit(s, j9, ",\"y\":") {
        None => {
            return None;
        },
        Some(j) => j,
    };
    let (y, j11) = match e_num(s, j10) {
        None => {
            return None;
        },
        Some(p) => p,
    };
    let j12 = match e_lit(s, j11, ",\"anchor\":") {
        None => {
            return None;
        },
        Some(j) => j,
    };
    let (anchor, j13) = match e_anchor(s, j12) {
        None => {
            return None;
        },
        Some(p) => p,
    };
    let j14 = match e_lit(s, j13, ",\"rotation\":") {
        None => {
            return None;
        },
        Some(j) => j,
    };
    let (rot, j15) = match e_num(s, j14) {
        None => {
            return None;
        },
        Some(p) => p,
    };
    let j16 = match e_lit(s, j15, ",\"scale_rate\":") {
        None => {
            return None;
        },
        Some(j) => j,
    };
    let (sr, j17) = match e_scale(s, j16) {
        None => {
            return None;
        },
        Some(p) => p,
    };
    let j18 = match e_lit(s, j17, ",\"z_index\":") {
        None => {
            return None;
        },
        Some(j) => j,
    };
    let (z, j19) = match e_num(s, j18) {
        None => {
            return None;
        },
        Some(p) => p,
    };
    let j20 = match e_lit(s, j19, ",\"tags\":") {
        None => {
            return None;
        },
        Some(j) => j,
    };
    let (tags, j21) = match e_strs(s, j20) {
        None => {
            return None;
        },
        Some(p) => p,
    };
    let j22 = match e_lit(s, j21, "}") {
        None => {
            return None;
        },
        Some(j) => j,
    };
    let e = crate::element::Element {
        uuid,
        ty,
        last_edited_by: leb,
        selected_by: sb,
        x,
        y,
        anchor,
        rotation: rot,
        scale_rate: sr,
        z_index: z,
        tags,
    };
    proof {
        assert(p_element(s@, i as int) matches Option::Some((ev, jj)) && ev =~= e@ && jj
            == j22 as int);
    }
    Some((e, j22))
}

fn e_strs(s: &Vec<char>, i: usize) -> (r: Option<(Vec<String>, usize)>)
    requires
        i <= s@.len(),
    ensures
        match r {
            Some((v, j)) => p_strs(s@, i as int) == Option::Some(
                (v@.map_values(|t: String| t@), j as int),
            ) && i <= j <= s@.len(),
            None => p_strs(s@, i as int) is None,
        },
{
    if !(i < s.len() && s[i] == '[') {
        return None;
    }
    if i + 1 < s.len() && s[i + 1] == ']' {
        let v: Vec<String> = Vec::new();
        proof {
            assert(v@.map_values(|t: String| t@) =~= Seq::<Seq<char>>::empty());
        }
        return Some((v, i + 2));
    }
    let (first, j0) = match e_str(s, i + 1) {
        None => {
            return None;
        },
        Some(p) => p,
    };
    if !(i + 1 < j0) {
        return None;
    }
    let mut acc: Vec<String> = Vec::new();
    acc.push(first);
    proof {
        assert(acc@.map_values(|t: String| t@) =~= seq![first@]);
    }
    let mut k: usize = j0;
    loop
        invariant
            i + 1 < k <= s@.len(),
            p_strs(s@, i as int) == p_strs_more(
                s@,
                k as int,
                acc@.map_values(|t: String| t@),
            ),
        decreases s@.len() - k,
    {
        let ghost accv = acc@.map_values(|t: String| t@);
        if k >= s.len() {
            return None;
        }
        if s[k] == ']' {
            return Some((acc, k + 1));
        }
        if s[k] != ',' {
            return None;
        }
        let (t, j) = match e_str(s, k + 1) {
            None => {
                return None;
            },
            Some(p) => p,
        };
        if !(k + 1 < j) {
            return None;
        }
        acc.push(t);
        proof {
            assert(acc@.map_values(|t2: String| t2@) =~= accv.push(t@));
        }
        k = j;
    }
}

fn e_ids(s: &Vec<char>, i: usize) -> (r: Option<(Vec<u128>, usize)>)
    requires
        i <= s@.len(),
    ensures
        match r {
            Some((v, j)) => p_ids(s@, i as int) == Option::Some((v@, j as int)) && i <= j
                <= s@.len(),
            None => p_ids(s@, i as int) is None,
        },
{
    if !(i < s.len() && s[i] == '[') {
        return None;
    }
    if i + 1 < s.len() && s[i + 1] == ']' {
        let v: Vec<u128> = Vec::new();
        proof {
            assert(v@ =~= Seq::<u128>::empty());
        }
        return Some((v, i + 2));
    }
    let (first, j0) = match e_uuid_str(s, i + 1) {
        None => {
            return None;
        },
        Some(p) => p,
    };
    let mut acc: Vec<u128> = Vec::new();
    acc.push(first);
    proof {
        assert(acc@ =~= seq![first]);
    }
    let mut k: usize = j0;
    loop
        invariant
            i <= k <= s@.len(),
            p_ids(s@, i as int) == p_ids_more(s@, k as int, acc@),
        decreases s@.len() - k,
    {
        let ghost accv = acc@;
        if k >= s.len() {
            return None;
        }
        if s[k] == ']' {
            return Some((acc, k + 1));
        }
        if s[k] != ',' {
            return None;
        }
        let (u, j) = match e_uuid_str(s, k + 1) {
            None => {
                return None;
            },
            Some(p) => p,
        };
        if !(k < j) {
            return None;
        }
        acc.push(u);
        proof {
            assert(acc@ =~= accv.push(u));
        }
        k = j;
    }
}

fn e_elems(s: &Vec<char>, i: usize) -> (r: Option<(Vec<crate::element::Element>, usize)>)
    requires
        i <= s@.len(),
    ensures
        match r {
            Some((v, j)) => p_elems(s@, i as int) == Option::Some(
                (v@.map_values(|e: crate::element::Element| e@), j as int),
            ) && i <= j <= s@.len(),
            None => p_elems(s@, i as int) is None,
        },
{
    if !(i < s.len() && s[i] == '[') {
        return None;
    }
    if i + 1 < s.len() && s[i + 1] == ']' {
        let v: Vec<crate::element::Element> = Vec::new();
        proof {
            assert(v@.map_values(|e: crate::element::Element| e@)
                =~= Seq::<crate::element::ElementView>::empty());
        }
        return Some((v, i + 2));
    }
    let (first, j0) = match e_element(s, i + 1) {
        None => {
            return None;
        },
        Some(p) => p,
    };
    if !(i + 1 < j0) {
        return None;
    }
    let mut acc: Vec<crate::element::Element> = Vec::new();
    acc.push(first);
    proof {
        assert(acc@.map_values(|e: crate::element::Element| e@) =~= seq![first@]);
    }
    let mut k: usize = j0;
    loop
        invariant
            i + 1 < k <= s@.len(),
            p_elems(s@, i as int) == p_elems_more(
                s@,
                k as int,
                acc@.map_values(|e: crate::element::Element| e@),
            ),
        decreases s@.len() - k,
    {
        let ghost accv = acc@.map_values(|e: crate::element::Element| e@);
        if k >= s.len() {
            return None;
        }
        if s[k] == ']' {
            return Some((acc, k + 1));
        }
        if s[k] != ',' {
            return None;
        }
        let (e, j) = match e_element(s, k + 1) {
            None => {
                return None;
            },
            Some(p) => p,
        };
        if !(k + 1 < j) {
            return None;
        }
        acc.push(e);
        proof {
            assert(acc@.map_values(|e2: crate::element::Element| e2@) =~= accv.push(e@));
        }
        k = j;
    }
}

#[verifier::rlimit(100)]
fn e_cmd_body(s: &Vec<char>, i: usize) -> (r: Option<(crate::commands::ReceiveType, usize)>)
    requires
        i <= s@.len(),
    ensures
        match r {
            Some((v, j)) => p_cmd_body(s@, i as int) == Option::Some((v@, j as int)) && i <= j
                <= s@.len(),
            None => p_cmd_body(s@, i as int) is None,
        },
{
    proof {
        reveal(p_cmd_body);
        reveal_strlit("\"type\":\"access_level_adjustment\",\"user\":");
        reveal_strlit("\"type\":\"selection\",\"elements\":");
        reveal_strlit("\"type\":\"canvas\",\"canvas\":");
        reveal_strlit("\"type\":\"elements\",\"elements\":");
        reveal_strlit(",\"access_level\":");
        reveal_strlit(",\"deleted_elements\":");
    }
    if let Some(j0) = e_lit(s, i, "\"type\":\"access_level_adjustment\",\"user\":") {
        let (user, j1) = match e_uuid_str(s, j0) {
            None => {
                return None;
            },
            Some(p) => p,
        };
        let j2 = match e_lit(s, j1, ",\"access_level\":") {
            None => {
                return None;
            },
            Some(j) => j,
        };
        let (level, j3) = match e_access(s, j2) {
            None => {
                return None;
            },
            Some(p) => p,
        };
        Some(
            (
                crate::commands::ReceiveType::AccessLevelAdjustment(
                    crate::commands::ReceiveAccessLevelAdjustment {
                        user,
                        access_level: level,
                    },
                ),
                j3,
            ),
        )
    } else if let Some(j0) = e_lit(s, i, "\"type\":\"selection\",\"elements\":") {
        let (ids, j1) = match e_ids(s, j0) {
            None => {
                return None;
            },
            Some(p) => p,
        };
        Some(
            (
                crate::commands::ReceiveType::Selection(
                    crate::selection::Receive { elements: ids },
                ),
                j1,
            ),
        )
    } else if let Some(j0) = e_lit(s, i, "\"type\":\"canvas\",\"canvas\":") {
        let (canvas, j1) = match e_u16(s, j0) {
            None => {
                return None;
            },
            Some(p) => p,
        };
        Some(
            (
                crate::commands::ReceiveType::Canvas(
                    crate::commands::ReceiveCanvas { canvas },
                ),
                j1,
            ),
        )
    } else if let Some(j0) = e_lit(s, i, "\"type\":\"elements\",\"elements\":") {
        let (els, j1) = match e_elems(s, j0) {
            None => {
                return None;
            },
            Some(p) => p,
        };
        let j2 = match e_lit(s, j1, ",\"deleted_elements\":") {
            None => {
                return None;
            },
            Some(j) => j,
        };
        let (dels, j3) = match e_ids(s, j2) {
            None => {
                return None;
            },
            Some(p) => p,
        };
        Some(
            (
                crate::commands::ReceiveType::Elements(
                    crate::elements::Receive { elements: els, deleted_elements: dels },
                ),
                j3,
            ),
        )
    } else {
        None
    }
}

/// Collects the characters of a string.
pub fn str_to_chars(t: &str) -> (r: Vec<char>)
    ensures
        r@ == t@,
{
    let n = t.unicode_len();
    let mut r: Vec<char> = Vec::new();
    let mut i: usize = 0;
    while i < n
        invariant
            i <= n,
            n == t@.len(),
            r@.len() == i,
            forall|j: int| 0 <= j < i ==> r@[j] == t@[j],
        decreases n - i,
    {
        r.push(t.get_char(i));
        i = i + 1;
    }
    proof {
        assert(r@ =~= t@);
    }
    r
}

/// Parses a whole inbound command envelope from its characters.
pub fn parse_envelope(s: &Vec<char>) -> (r: Option<crate::commands::ReceiveData>)
    ensures
        match r {
            Some(d) => p_envelope(s@) == Option::Some(d@),
            None => p_envelope(s@) is None,
        },
{
    proof {
        reveal_strlit("{\"id\":");
        reveal_strlit("{");
        reveal_strlit(",");
        reveal_strlit("}");
    }
    if let Some(j0) = e_lit(s, 0, "{\"id\":") {
        let (t, j1) = match e_str(s, j0) {
            None => {
                return None;
            },
            Some(p) => p,
        };
        let j2 = match e_lit(s, j1, ",") {
            None => {
                return None;
            },
            Some(j) => j,
        };
        let (c, j3) = match e_cmd_body(s, j2) {
            None => {
                return None;
            },
            Some(p) => p,
        };
        let j4 = match e_lit(s, j3, "}") {
            None => {
                return None;
            },
            Some(j) => j,
        };
        if j4 == s.len() {
            let d = crate::commands::ReceiveData { id: Some(t), receive: c };
            proof {
                assert(p_envelope(s@) matches Option::Some(dv) && dv =~= d@);
            }
            Some(d)
        } else {
            None
        }
    } else if let Some(j0) = e_lit(s, 0, "{") {
        let (c, j3) = match e_cmd_body(s, j0) {
            None => {
                return None;
            },
            Some(p) => p,
        };
        let j4 = match e_lit(s, j3, "}") {
            None => {
                return None;
            },
            Some(j) => j,
        };
        if j4 == s.len() {
            let d = crate::commands::ReceiveData { id: None, receive: c };
            proof {
                assert(p_envelope(s@) matches Option::Some(dv) && dv =~= d@);
            }
            Some(d)
        } else {
            None
        }
    } else {
        None
    }
}

/// Parses a whole inbound command envelope from wire text.
pub fn parse_command(text: &str) -> (r: Option<crate::commands::ReceiveData>)
    ensures
        match r {
            Some(d) => p_envelope(text@) == Option::Some(d@),
            None => p_envelope(text@) is None,
        },
{
    let chars = str_to_chars(text);
    parse_envelope(&chars)
}

/// A roster entry on the wire.
#[verifier::opaque]
pub open spec fn ser_user(u: crate::user::UserView) -> Seq<char> {
    lit("{\"color\":") + ser_str(u.color) + lit(",\"username\":") + ser_str(u.username) + lit(
        ",\"canvas\":",
    ) + ser_u16(u.canvas) + lit(",\"uuid\":") + ser_uuid_str(u.uuid) + lit(",\"access_level\":")
        + ser_access(u.access_level) + lit("}")
}

/// The serialized tail of a roster list.
pub open spec fn ser_users_rest(l: Seq<crate::user::UserView>) -> Seq<char>
    decreases l.len(),
{
    if l.len() == 0 {
        seq![']']
    } else {
        seq![','] + ser_user(l[0]) + ser_users_rest(l.drop_first())
    }
}

/// A bracketed roster list.
pub open spec fn ser_users(l: Seq<crate::user::UserView>) -> Seq<char> {
    if l.len() == 0 {
        seq!['[', ']']
    } else {
        seq!['['] + ser_user(l[0]) + ser_users_rest(l.drop_first())
    }
}

/// The body of an outbound event, by its wire tag.
#[verifier::opaque]
pub open spec fn ser_event(d: crate::commands::AnnounceTypeView) -> Seq<char> {
    match d {
        crate::commands::AnnounceTypeView::Join { user } => lit("\"type\":\"join\",\"user\":")
            + ser_user(user),
        crate::commands::AnnounceTypeView::OnJoin { user, users, elements } => lit(
            "\"type\":\"on_join\",\"user\":",
        ) + ser_user(user) + lit(",\"users\":") + ser_users(users) + lit(",\"elements\":")
            + ser_elems(elements),
        crate::commands::AnnounceTypeView::Disconnect { user } => lit(
            "\"type\":\"disconnect\",\"user\":",
        ) + ser_uuid_str(user),
        crate::commands::AnnounceTypeView::UserChange { user } => lit(
            "\"type\":\"user_change\",\"user\":",
        ) + ser_user(user),
        crate::commands::AnnounceTypeView::Selection {
            user_uuid,
            newly_selected,
            newly_deselected,
        } => lit("\"type\":\"selection\",\"user_uuid\":") + ser_uuid_str(user_uuid) + lit(
            ",\"newly_selected\":",
        ) + ser_ids(newly_selected) + lit(",\"newly_deselected\":") + ser_ids(newly_deselected),
        crate::commands::AnnounceTypeView::SelectionResponse {
            user_uuid,
            newly_selected,
            newly_deselected,
            failed_to_select,
        } => lit("\"type\":\"selection_response\",\"user_uuid\":") + ser_uuid_str(user_uuid)
            + lit(",\"newly_selected\":") + ser_ids(newly_selected) + lit(
            ",\"newly_deselected\":",
        ) + ser_ids(newly_deselected) + lit(",\"failed_to_select\":") + ser_ids(
            failed_to_select,
        ),
        crate::commands::AnnounceTypeView::CanvasResponse { canvas, elements } => lit(
            "\"type\":\"canvas_response\",\"canvas\":",
        ) + ser_u16(canvas) + lit(",\"elements\":") + ser_elems(elements),
        crate::commands::AnnounceTypeView::ElementsChanged { elements, deleted_elements } => lit(
            "\"type\":\"elements_changed\",\"elements\":",
        ) + ser_elems(elements) + lit(",\"deleted_elements\":") + ser_ids(deleted_elements),
    }
}

/// One whole outbound frame: an event envelope, or an error envelope
/// echoing the client token.
#[verifier::opaque]
pub open spec fn ser_frame(a: crate::commands::AnnounceView) -> Seq<char> {
    let head = match a.id {
        Option::Some(t) => lit("{\"id\":") + ser_str(t) + lit(","),
        Option::None => lit("{"),
    };
    match a.payload {
        crate::commands::PayloadView::Event(d) => head + ser_event(d) + lit("}"),
        crate::commands::PayloadView::Failure(e) => head + lit("\"error\":{\"code\":\"")
            + e.code() + lit("\"}}"),
    }
}

/// Appends a quoted, escaped string.
fn write_str(out: &mut String, t: &str)
    ensures
        final(out)@ == old(out)@ + ser_str(t@),
{
    crate::color::push_char(out, '"');
    let n = t.unicode_len();
    let mut i: usize = 0;
    while i < n
        invariant
            i <= n,
            n == t@.len(),
            out@ == old(out)@ + seq!['"'] + esc(t@.take(i as int)),
        decreases n - i,
    {
        let c = t.get_char(i);
        if c == '"' || c == '\\' {
            crate::color::push_char(out, '\\');
            crate::color::push_char(out, c);
        } else if (c as u32) < 32 {
            let cu = c as u32;
            crate::color::push_char(out, '\\');
            crate::color::push_char(out, 'u');
            crate::color::push_char(out, '0');
            crate::color::push_char(out, '0');
            crate::color::push_char(out, crate::digits::digit_char_exec((cu / 16) as u64));
            crate::color::push_char(out, crate::digits::digit_char_exec((cu % 16) as u64));
        } else {
            crate::color::push_char(out, c);
        }
        proof {
            assert(t@.take(i + 1).drop_last() =~= t@.take(i as int));
            assert(t@.take(i + 1).last() == t@[i as int]);
            assert(out@ =~= old(out)@ + seq!['"'] + esc(t@.take(i + 1)));
        }
        i = i + 1;
    }
    crate::color::push_char(out, '"');
    proof {
        assert(t@.take(n as int) =~= t@);
        assert(out@ =~= old(out)@ + ser_str(t@));
    }
}

/// Appends a decimal `u16`.
fn write_u16(out: &mut String, n: u16)
    ensures
        final(out)@ == old(out)@ + ser_u16(n),
{
    crate::digits::fmt_u64_dec(n as u64, out);
}

/// Appends a quoted identifier.
fn write_uuid_str(out: &mut String, u: u128)
    ensures
        final(out)@ == old(out)@ + ser_uuid_str(u),
{
    crate::color::push_char(out, '"');
    crate::ident::fmt_uuid(u, out);
    crate::color::push_char(out, '"');
    proof {
        assert(out@ =~= old(out)@ + ser_uuid_str(u));
    }
}

/// Appends `null` or a quoted identifier.
fn write_opt_uuid(out: &mut String, o: &Option<u128>)
    ensures
        final(out)@ == old(out)@ + ser_opt_uuid(*o),
{
    match o {
        Option::Some(u) => {
            write_uuid_str(out, *u);
        },
        Option::None => {
            proof {
                reveal_strlit("null");
                assert(lit("null") =~= seq!['n', 'u', 'l', 'l']);
            }
            out.append("null");
        },
    }
}

/// Appends a number token.
fn write_num(out: &mut String, n: &crate::element::NumLit)
    ensures
        final(out)@ == old(out)@ + ser_num(n@),
{
    out.append(n.text.as_str());
}

/// Appends a quoted access level.
fn write_access(out: &mut String, l: crate::user::AccessLevel)
    ensures
        final(out)@ == old(out)@ + ser_access(l),
{
    crate::color::push_char(out, '"');
    out.append(l.as_str());
    crate::color::push_char(out, '"');
    proof {
        assert(out@ =~= old(out)@ + ser_access(l));
    }
}

/// Appends a quoted alignment keyword.
fn write_align(out: &mut String, a: crate::element::TextAlignment)
    ensures
        final(out)@ == old(out)@ + ser_align(a),
{
    match a {
        crate::element::TextAlignment::Left => {
            proof {
                reveal_strlit("\"left\"");
                assert(lit("\"left\"") =~= ser_align(crate::element::TextAlignment::Left));
            }
            out.append("\"left\"");
        },
        crate::element::TextAlignment::Center => {
            proof {
                reveal_strlit("\"center\"");
                assert(lit("\"center\"") =~= ser_align(crate::element::TextAlignment::Center));
            }
            out.append("\"center\"");
        },
        crate::element::TextAlignment::Right => {
            proof {
                reveal_strlit("\"right\"");
                assert(lit("\"right\"") =~= ser_align(crate::element::TextAlignment::Right));
            }
            out.append("\"right\"");
        },
        crate::element::TextAlignment::Justify => {
            proof {
                reveal_strlit("\"justify\"");
                assert(lit("\"justify\"") =~= ser_align(
                    crate::element::TextAlignment::Justify,
                ));
            }
            out.append("\"justify\"");
        },
    }
}

/// Appends a quoted scale keyword.
fn write_scale(out: &mut String, r: crate::element::ScaleRate)
    ensures
        final(out)@ == old(out)@ + ser_scale(r),
{
    match r {
        crate::element::ScaleRate::Plain => {
            proof {
                reveal_strlit("\"none\"");
                assert(lit("\"none\"") =~= ser_scale(crate::element::ScaleRate::Plain));
            }
            out.append("\"none\"");
        },
        crate::element::ScaleRate::Base => {
            proof {
                reveal_strlit("\"base\"");
                assert(lit("\"base\"") =~= ser_scale(crate::element::ScaleRate::Base));
            }
            out.append("\"base\"");
        },
    }
}

fn write_font(out: &mut String, f: &crate::element::TextFont)
    ensures
        final(out)@ == old(out)@ + ser_font(f@),
{
    out.append("{\"font_type\":\"");
    match f {
        crate::element::TextFont::Sans(_) => {
            out.append("sans");
        },
        crate::element::TextFont::Serif(_) => {
            out.append("serif");
        },
        crate::element::TextFont::Mono(_) => {
            out.append("mono");
        },
    }
    out.append("\",\"custom_font_family\":");
    match f {
        crate::element::TextFont::Sans(o) | crate::element::TextFont::Serif(o)
            | crate::element::TextFont::Mono(o) => {
            match o {
                Option::Some(t) => {
                    write_str(out, t.as_str());
                },
                Option::None => {
                    proof {
                        reveal_strlit("null");
                        assert(lit("null") =~= seq!['n', 'u', 'l', 'l']);
                    }
                    out.append("null");
                },
            }
        },
    }
    out.append("}");
    proof {
        reveal_strlit("sans");
        reveal_strlit("serif");
        reveal_strlit("mono");
        assert(lit("sans") =~= font_tag(f@) || lit("serif") =~= font_tag(f@) || lit("mono")
            =~= font_tag(f@));
        assert(font_tag(f@) == (match f {
            crate::element::TextFont::Sans(_) => lit("sans"),
            crate::element::TextFont::Serif(_) => lit("serif"),
            crate::element::TextFont::Mono(_) => lit("mono"),
        }));
        assert(out@ =~= old(out)@ + ser_font(f@));
    }
}

fn write_anchor(out: &mut String, a: &crate::element::ElementAnchor)
    ensures
        final(out)@ == old(out)@ + ser_anchor(a@),
{
    out.append("{\"top\":");
    write_num(out, &a.top);
    out.append(",\"left\":");
    write_num(out, &a.left);
    out.append("}");
    proof {
        assert(out@ =~= old(out)@ + ser_anchor(a@));
    }
}

fn write_crop(out: &mut String, c: &crate::element::ImageCrop)
    ensures
        final(out)@ == old(out)@ + ser_crop(c@),
{
    out.append("{\"left\":");
    write_num(out, &c.left);
    out.append(",\"top\":");
    write_num(out, &c.top);
    out.append(",\"right\":");
    write_num(out, &c.right);
    out.append(",\"bottom\":");
    write_num(out, &c.bottom);
    out.append("}");
    proof {
        assert(out@ =~= old(out)@ + ser_crop(c@));
    }
}

#[verifier::rlimit(100)]
fn write_text_fields(out: &mut String, t: &crate::element::ElementText)
    ensures
        final(out)@ == old(out)@ + ser_text_fields(t@),
{
    out.append("\"content\":");
    write_str(out, t.content.as_str());
    out.append(",\"align\":");
    write_align(out, t.align);
    out.append(",\"color\":");
    write_str(out, t.color.as_str());
    out.append(",\"size\":");
    write_num(out, &t.size);
    out.append(",\"font\":");
    write_font(out, &t.font);
    out.append(",\"background_color\":");
    write_str(out, t.background_color.as_str());
    out.append(",\"background_blur\":");
    write_num(out, &t.background_blur);
    proof {
        reveal(ser_text_fields);
        assert(out@ =~= old(out)@ + ser_text_fields(t@));
    }
}

#[verifier::rlimit(100)]
fn write_imgtext(out: &mut String, it: &crate::element::ImageText)
    ensures
        final(out)@ == old(out)@ + ser_imgtext(it@),
{
    out.append("{\"x\":");
    write_num(out, &it.x);
    out.append(",\"y\":");
    write_num(out, &it.y);
    out.append(",\"anchor\":");
    write_anchor(out, &it.anchor);
    out.append(",\"text\":{");
    write_text_fields(out, &it.text);
    out.append("}}");
    proof {
        reveal(ser_imgtext);
        assert(out@ =~= old(out)@ + ser_imgtext(it@));
    }
}

fn write_imgtexts(out: &mut String, l: &Vec<crate::element::ImageText>)
    ensures
        final(out)@ == old(out)@ + ser_imgtexts(
            l@.map_values(|t: crate::element::ImageText| t@),
        ),
{
    let ghost lv = l@.map_values(|t: crate::element::ImageText| t@);
    crate::color::push_char(out, '[');
    if l.len() == 0 {
        crate::color::push_char(out, ']');
        proof {
            assert(lv =~= Seq::<crate::element::ImageTextView>::empty());
            assert(out@ =~= old(out)@ + ser_imgtexts(lv));
        }
        return;
    }
    write_imgtext(out, &l[0]);
    let ghost base = old(out)@;
    proof {
        assert(lv.skip(1) =~= lv.drop_first());
        assert(ser_imgtexts(lv) =~= seq!['['] + ser_imgtext(lv[0]) + ser_imgtexts_rest(
            lv.skip(1),
        ));
        assert(out@ + ser_imgtexts_rest(lv.skip(1)) =~= base + ser_imgtexts(lv));
    }
    let mut k: usize = 1;
    while k < l.len()
        invariant
            1 <= k <= l@.len(),
            lv == l@.map_values(|t: crate::element::ImageText| t@),
            out@ + ser_imgtexts_rest(lv.skip(k as int)) == base + ser_imgtexts(lv),
        decreases l@.len() - k,
    {
        crate::color::push_char(out, ',');
        write_imgtext(out, &l[k]);
        proof {
            assert(lv.skip(k as int)[0] == lv[k as int]);
            assert(lv.skip(k as int).drop_first() =~= lv.skip(k + 1));
            assert(ser_imgtexts_rest(lv.skip(k as int)) =~= seq![','] + ser_imgtext(
                lv[k as int],
            ) + ser_imgtexts_rest(lv.skip(k + 1)));
            assert(out@ + ser_imgtexts_rest(lv.skip(k + 1)) =~= base + ser_imgtexts(lv));
        }
        k = k + 1;
    }
    crate::color::push_char(out, ']');
    proof {
        assert(lv.skip(l@.len() as int) =~= Seq::<crate::element::ImageTextView>::empty());
        assert(ser_imgtexts_rest(lv.skip(l@.len() as int)) =~= seq![']']);
        assert(out@ =~= base + ser_imgtexts(lv));
    }
}

#[verifier::rlimit(100)]
fn write_image_fields(out: &mut String, m: &crate::element::ElementImage)
    ensures
        final(out)@ == old(out)@ + ser_image_fields(m@),
{
    out.append("\"url\":");
    write_str(out, m.url.as_str());
    out.append(",\"alt\":");
    write_str(out, m.alt.as_str());
    out.append(",\"scale_x\":");
    write_num(out, &m.scale_x);
    out.append(",\"scale_y\":");
    write_num(out, &m.scale_y);
    out.append(",\"crop\":");
    write_crop(out, &m.crop);
    let ghost mid = out@;
    proof {
        reveal(ser_image_head);
        assert(mid =~= old(out)@ + ser_image_head(m@));
    }
    out.append(",\"outline_color\":");
    write_str(out, m.outline_color.as_str());
    out.append(",\"outline_thickness\":");
    write_num(out, &m.outline_thickness);
    out.append(",\"outline_blur\":");
    write_num(out, &m.outline_blur);
    out.append(",\"text\":");
    write_imgtexts(out, &m.text);
    proof {
        reveal(ser_image_tail);
        assert(out@ =~= mid + ser_image_tail(m@));
        assert(out@ =~= old(out)@ + ser_image_fields(m@));
    }
}

fn write_payload(out: &mut String, p: &crate::element::ElementType)
    ensures
        final(out)@ == old(out)@ + ser_payload(p@),
{
    match p {
        crate::element::ElementType::Text(t) => {
            out.append("{\"type\":\"text\",");
            write_text_fields(out, t);
            out.append("}");
        },
        crate::element::ElementType::Image(m) => {
            out.append("{\"type\":\"image\",");
            write_image_fields(out, m);
            out.append("}");
        },
    }
    proof {
        reveal(ser_payload);
        assert(out@ =~= old(out)@ + ser_payload(p@));
    }
}

#[verifier::rlimit(100)]
pub(crate) fn write_element(out: &mut String, e: &crate::element::Element)
    ensures
        final(out)@ == old(out)@ + ser_element(e@),
{
    out.append("{\"uuid\":");
    write_uuid_str(out, e.uuid);
    out.append(",\"ty\":");
    write_payload(out, &e.ty);
    out.append(",\"last_edited_by\":");
    write_opt_uuid(out, &e.last_edited_by);
    out.append(",\"selected_by\":");
    write_opt_uuid(out, &e.selected_by);
    let ghost mid = out@;
    proof {
        reveal(ser_elem_id);
        reveal(ser_elem_sel);
        assert(mid =~= old(out)@ + (ser_elem_id(e@) + ser_elem_sel(e@)));
        assert(mid =~= old(out)@ + ser_element_head(e@));
    }
    out.append(",\"x\":");
    write_num(out, &e.x);
    out.append(",\"y\":");
    write_num(out, &e.y);
    out.append(",\"anchor\":");
    write_anchor(out, &e.anchor);
    out.append(",\"rotation\":");
    write_num(out, &e.rotation);
    out.append(",\"scale_rate\":");
    write_scale(out, e.scale_rate);
    out.append(",\"z_index\":");
    write_num(out, &e.z_index);
    out.append(",\"tags\":");
    write_strs(out, &e.tags);
    out.append("}");
    proof {
        reveal(ser_element_tail);
        assert(out@ =~= mid + ser_element_tail(e@));
        assert(out@ =~= old(out)@ + ser_element(e@));
    }
}

fn write_strs(out: &mut String, l: &Vec<String>)
    ensures
        final(out)@ == old(out)@ + ser_strs(l@.map_values(|t: String| t@)),
{
    let ghost lv = l@.map_values(|t: String| t@);
    crate::color::push_char(out, '[');
    if l.len() == 0 {
        crate::color::push_char(out, ']');
        proof {
            assert(lv =~= Seq::<Seq<char>>::empty());
            assert(out@ =~= old(out)@ + ser_strs(lv));
        }
        return;
    }
    write_str(out, l[0].as_str());
    let ghost base = old(out)@;
    proof {
        assert(lv.skip(1) =~= lv.drop_first());
        assert(ser_strs(lv) =~= seq!['['] + ser_str(lv[0]) + ser_strs_rest(lv.skip(1)));
        assert(out@ + ser_strs_rest(lv.skip(1)) =~= base + ser_strs(lv));
    }
    let mut k: usize = 1;
    while k < l.len()
        invariant
            1 <= k <= l@.len(),
            lv == l@.map_values(|t: String| t@),
            out@ + ser_strs_rest(lv.skip(k as int)) == base + ser_strs(lv),
        decreases l@.len() - k,
    {
        crate::color::push_char(out, ',');
        write_str(out, l[k].as_str());
        proof {
            assert(lv.skip(k as int)[0] == lv[k as int]);
            assert(lv.skip(k as int).drop_first() =~= lv.skip(k + 1));
            assert(ser_strs_rest(lv.skip(k as int)) =~= seq![','] + ser_str(lv[k as int])
                + ser_strs_rest(lv.skip(k + 1)));
            assert(out@ + ser_strs_rest(lv.skip(k + 1)) =~= base + ser_strs(lv));
        }
        k = k + 1;
    }
    crate::color::push_char(out, ']');
    proof {
        assert(lv.skip(l@.len() as int) =~= Seq::<Seq<char>>::empty());
        assert(ser_strs_rest(lv.skip(l@.len() as int)) =~= seq![']']);
        assert(out@ =~= base + ser_strs(lv));
    }
}

pub(crate) fn write_elems(out: &mut String, l: &Vec<crate::element::Element>)
    ensures
        final(out)@ == old(out)@ + ser_elems(
            l@.map_values(|e: crate::element::Element| e@),
        ),
{
    let ghost lv = l@.map_values(|e: crate::element::Element| e@);
    crate::color::push_char(out, '[');
    if l.len() == 0 {
        crate::color::push_char(out, ']');
        proof {
            assert(lv =~= Seq::<crate::element::ElementView>::empty());
            assert(out@ =~= old(out)@ + ser_elems(lv));
        }
        return;
    }
    write_element(out, &l[0]);
    let ghost base = old(out)@;
    proof {
        assert(lv.skip(1) =~= lv.drop_first());
        assert(ser_elems(lv) =~= seq!['['] + ser_element(lv[0]) + ser_elems_rest(lv.skip(1)));
        assert(out@ + ser_elems_rest(lv.skip(1)) =~= base + ser_elems(lv));
    }
    let mut k: usize = 1;
    while k < l.len()
        invariant
            1 <= k <= l@.len(),
            lv == l@.map_values(|e: crate::element::Element| e@),
            out@ + ser_elems_rest(lv.skip(k as int)) == base + ser_elems(lv),
        decreases l@.len() - k,
    {
        crate::color::push_char(out, ',');
        write_element(out, &l[k]);
        proof {
            assert(lv.skip(k as int)[0] == lv[k as int]);
            assert(lv.skip(k as int).drop_first() =~= lv.skip(k + 1));
            assert(ser_elems_rest(lv.skip(k as int)) =~= seq![','] + ser_element(lv[k as int])
                + ser_elems_rest(lv.skip(k + 1)));
            assert(out@ + ser_elems_rest(lv.skip(k + 1)) =~= base + ser_elems(lv));
        }
        k = k + 1;
    }
    crate::color::push_char(out, ']');
    proof {
        assert(lv.skip(l@.len() as int) =~= Seq::<crate::element::ElementView>::empty());
        assert(ser_elems_rest(lv.skip(l@.len() as int)) =~= seq![']']);
        assert(out@ =~= base + ser_elems(lv));
    }
}

fn write_user(out: &mut String, u: &crate::user::User)
    ensures
        final(out)@ == old(out)@ + ser_user(u@),
{
    out.append("{\"color\":");
    write_str(out, u.color.as_str());
    out.append(",\"username\":");
    write_str(out, u.username.as_str());
    out.append(",\"canvas\":");
    write_u16(out, u.canvas);
    out.append(",\"uuid\":");
    write_uuid_str(out, u.uuid);
    out.append(",\"access_level\":");
    write_access(out, u.access_level);
    out.append("}");
    proof {
        reveal(ser_user);
        assert(out@ =~= old(out)@ + ser_user(u@));
    }
}

fn write_users(out: &mut String, l: &Vec<crate::user::User>)
    ensures
        final(out)@ == old(out)@ + ser_users(l@.map_values(|u: crate::user::User| u@)),
{
    let ghost lv = l@.map_values(|u: crate::user::User| u@);
    crate::color::push_char(out, '[');
    if l.len() == 0 {
        crate::color::push_char(out, ']');
        proof {
            assert(lv =~= Seq::<crate::user::UserView>::empty());
            assert(out@ =~= old(out)@ + ser_users(lv));
        }
        return;
    }
    write_user(out, &l[0]);
    let ghost base = old(out)@;
    proof {
        assert(lv.skip(1) =~= lv.drop_first());
        assert(ser_users(lv) =~= seq!['['] + ser_user(lv[0]) + ser_users_rest(lv.skip(1)));
        assert(out@ + ser_users_rest(lv.skip(1)) =~= base + ser_users(lv));
    }
    let mut k: usize = 1;
    while k < l.len()
        invariant
            1 <= k <= l@.len(),
            lv == l@.map_values(|u: crate::user::User| u@),
            out@ + ser_users_rest(lv.skip(k as int)) == base + ser_users(lv),
        decreases l@.len() - k,
    {
        crate::color::push_char(out, ',');
        write_user(out, &l[k]);
        proof {
            assert(lv.skip(k as int)[0] == lv[k as int]);
            assert(lv.skip(k as int).drop_first() =~= lv.skip(k + 1));
            assert(ser_users_rest(lv.skip(k as int)) =~= seq![','] + ser_user(lv[k as int])
                + ser_users_rest(lv.skip(k + 1)));
            assert(out@ + ser_users_rest(lv.skip(k + 1)) =~= base + ser_users(lv));
        }
        k = k + 1;
    }
    crate::color::push_char(out, ']');
    proof {
        assert(lv.skip(l@.len() as int) =~= Seq::<crate::user::UserView>::empty());
        assert(ser_users_rest(lv.skip(l@.len() as int)) =~= seq![']']);
        assert(out@ =~= base + ser_users(lv));
    }
}

#[verifier::rlimit(100)]
fn write_event(out: &mut String, d: &crate::commands::AnnounceType)
    ensures
        final(out)@ == old(out)@ + ser_event(d@),
{
    match d {
        crate::commands::AnnounceType::Join { user } => {
            out.append("\"type\":\"join\",\"user\":");
            write_user(out, user);
        },
        crate::commands::AnnounceType::OnJoin { user, users, elements } => {
            out.append("\"type\":\"on_join\",\"user\":");
            write_user(out, user);
            out.append(",\"users\":");
            write_users(out, users);
            out.append(",\"elements\":");
            write_elems(out, elements);
        },
        crate::commands::AnnounceType::Disconnect { user } => {
            out.append("\"type\":\"disconnect\",\"user\":");
            write_uuid_str(out, *user);
        },
        crate::commands::AnnounceType::UserChange { user } => {
            out.append("\"type\":\"user_change\",\"user\":");
            write_user(out, user);
        },
        crate::commands::AnnounceType::Selection {
            user_uuid,
            newly_selected,
            newly_deselected,
        } => {
            out.append("\"type\":\"selection\",\"user_uuid\":");
            write_uuid_str(out, *user_uuid);
            out.append(",\"newly_selected\":");
            write_ids(out, newly_selected);
            out.append(",\"newly_deselected\":");
            write_ids(out, newly_deselected);
        },
        crate::commands::AnnounceType::SelectionResponse {
            user_uuid,
            newly_selected,
            newly_deselected,
            failed_to_select,
        } => {
            out.append("\"type\":\"selection_response\",\"user_uuid\":");
            write_uuid_str(out, *user_uuid);
            out.append(",\"newly_selected\":");
            write_ids(out, newly_selected);
            out.append(",\"newly_deselected\":");
            write_ids(out, newly_deselected);
            out.append(",\"failed_to_select\":");
            write_ids(out, failed_to_select);
        },
        crate::commands::AnnounceType::CanvasResponse { canvas, elements } => {
            out.append("\"type\":\"canvas_response\",\"canvas\":");
            write_u16(out, *canvas);
            out.append(",\"elements\":");
            write_elems(out, elements);
        },
        crate::commands::AnnounceType::ElementsChanged { elements, deleted_elements } => {
            out.append("\"type\":\"elements_changed\",\"elements\":");
            write_elems(out, elements);
            out.append(",\"deleted_elements\":");
            write_ids(out, deleted_elements);
        },
    }
    proof {
        reveal(ser_event);
        assert(out@ =~= old(out)@ + ser_event(d@));
    }
}

fn write_ids(out: &mut String, l: &Vec<u128>)
    ensures
        final(out)@ == old(out)@ + ser_ids(l@),
{
    let ghost lv = l@;
    crate::color::push_char(out, '[');
    if l.len() == 0 {
        crate::color::push_char(out, ']');
        proof {
            assert(out@ =~= old(out)@ + ser_ids(lv));
        }
        return;
    }
    write_uuid_str(out, l[0]);
    let ghost base = old(out)@;
    proof {
        assert(lv.skip(1) =~= lv.drop_first());
        assert(ser_ids(lv) =~= seq!['['] + ser_uuid_str(lv[0]) + ser_ids_rest(lv.skip(1)));
        assert(out@ + ser_ids_rest(lv.skip(1)) =~= base + ser_ids(lv));
    }
    let mut k: usize = 1;
    while k < l.len()
        invariant
            1 <= k <= l@.len(),
            lv == l@,
            out@ + ser_ids_rest(lv.skip(k as int)) == base + ser_ids(lv),
        decreases l@.len() - k,
    {
        crate::color::push_char(out, ',');
        write_uuid_str(out, l[k]);
        proof {
            assert(lv.skip(k as int)[0] == lv[k as int]);
            assert(lv.skip(k as int).drop_first() =~= lv.skip(k + 1));
            assert(ser_ids_rest(lv.skip(k as int)) =~= seq![','] + ser_uuid_str(lv[k as int])
                + ser_ids_rest(lv.skip(k + 1)));
            assert(out@ + ser_ids_rest(lv.skip(k + 1)) =~= base + ser_ids(lv));
        }
        k = k + 1;
    }
    crate::color::push_char(out, ']');
    proof {
        assert(lv.skip(l@.len() as int) =~= Seq::<u128>::empty());
        assert(ser_ids_rest(lv.skip(l@.len() as int)) =~= seq![']']);
        assert(out@ =~= base + ser_ids(lv));
    }
}

/// Serializes one outbound frame.
pub fn render_frame(a: &crate::commands::Announce) -> (r: String)
    ensures
        r@ == ser_frame(a@),
{
    let mut out = String::new();
    match &a.id {
        Option::Some(t) => {
            out.append("{\"id\":");
            write_str(&mut out, t.as_str());
            out.append(",");
        },
        Option::None => {
            out.append("{");
        },
    }
    match &a.payload {
        crate::commands::Payload::Event(d) => {
            write_event(&mut out, d);
            out.append("}");
        },
        crate::commands::Payload::Failure(e) => {
            out.append("\"error\":{\"code\":\"");
            let code: &str = match e {
                crate::commands::ErrorType::Selection(crate::selection::Error::NoPermission)
                    | crate::commands::ErrorType::Elements(
                    crate::elements::Error::NoPermission,
                ) | crate::commands::ErrorType::UserChange(
                    crate::commands::UserChangeError::NoPermission,
                ) => {
                    let c = "no_permission";
                    proof {
                        reveal_strlit("no_permission");
                        assert(c@ =~= e.code());
                    }
                    c
                },
                crate::commands::ErrorType::Selection(
                    crate::selection::Error::RoomDoesNotExist,
                ) | crate::commands::ErrorType::Elements(
                    crate::elements::Error::RoomDoesNotExist,
                ) | crate::commands::ErrorType::UserChange(
                    crate::commands::UserChangeError::RoomDoesNotExist,
                ) => {
                    let c = "room_does_not_exist";
                    proof {
                        reveal_strlit("room_does_not_exist");
                        assert(c@ =~= e.code());
                    }
                    c
                },
                crate::commands::ErrorType::UserChange(
                    crate::commands::UserChangeError::UserDoesNotExist,
                ) => {
                    let c = "user_does_not_exist";
                    proof {
                        reveal_strlit("user_does_not_exist");
                        assert(c@ =~= e.code());
                    }
                    c
                },
            };
            out.append(code);
            out.append("\"}}");
        },
    }
    proof {
        reveal(ser_frame);
        assert(out@ =~= ser_frame(a@));
    }
    out
}

/// One text frame addressed to one connection.
pub struct Outgoing {
    pub addr: u64,
    pub text: String,
}

/// The deliveries of one frame: its serialized text, once, for each of
/// its targets.
pub open spec fn frame_outgoings(a: crate::commands::AnnounceView) -> Seq<(u64, Seq<char>)> {
    a.targets.map_values(|t: u64| (t, ser_frame(a)))
}

/// The deliveries of a frame queue, in order.
pub open spec fn outgoings_of(frames: Seq<crate::commands::AnnounceView>) -> Seq<(
    u64,
    Seq<char>,
)>
    decreases frames.len(),
{
    if frames.len() == 0 {
        Seq::empty()
    } else {
        outgoings_of(frames.drop_last()) + frame_outgoings(frames.last())
    }
}

/// Renders a frame queue into addressed text frames. Each frame is
/// serialized once; every target of it receives the same text.
pub fn render(frames: &Vec<crate::commands::Announce>) -> (r: Vec<Outgoing>)
    ensures
        r@.map_values(|o: Outgoing| (o.addr, o.text@)) == outgoings_of(
            crate::commands::announces_view(frames@),
        ),
{
    let mut r: Vec<Outgoing> = Vec::new();
    let mut k: usize = 0;
    while k < frames.len()
        invariant
            k <= frames@.len(),
            r@.map_values(|o: Outgoing| (o.addr, o.text@)) == outgoings_of(
                crate::commands::announces_view(frames@.take(k as int)),
            ),
        decreases frames@.len() - k,
    {
        let a = &frames[k];
        let text = render_frame(a);
        let ghost before = r@.map_values(|o: Outgoing| (o.addr, o.text@));
        let mut t: usize = 0;
        while t < a.targets.len()
            invariant
                t <= a.targets@.len(),
                text@ == ser_frame(a@),
                a == frames@[k as int],
                r@.map_values(|o: Outgoing| (o.addr, o.text@)) == before + a.targets@.take(
                    t as int,
                ).map_values(|w: u64| (w, ser_frame(a@))),
            decreases a.targets@.len() - t,
        {
            let ghost prev = r@.map_values(|o: Outgoing| (o.addr, o.text@));
            r.push(Outgoing { addr: a.targets[t], text: crate::color::clone_string(&text) });
            proof {
                assert(r@.map_values(|o: Outgoing| (o.addr, o.text@)) =~= prev.push(
                    (a.targets@[t as int], ser_frame(a@)),
                ));
                assert(a.targets@.take(t + 1).map_values(|w: u64| (w, ser_frame(a@)))
                    =~= a.targets@.take(t as int).map_values(
                    |w: u64| (w, ser_frame(a@)),
                ).push((a.targets@[t as int], ser_frame(a@))));
                assert(r@.map_values(|o: Outgoing| (o.addr, o.text@)) =~= before
                    + a.targets@.take(t + 1).map_values(|w: u64| (w, ser_frame(a@))));
            }
            t = t + 1;
        }
        proof {
            assert(a.targets@.take(a.targets@.len() as int) =~= a.targets@);
            assert(crate::commands::announces_view(frames@.take(k + 1)).drop_last()
                =~= crate::commands::announces_view(frames@.take(k as int)));
            assert(crate::commands::announces_view(frames@.take(k + 1)).last() == frames@[
                k as int
            ]@);
            assert(frame_outgoings(frames@[k as int]@) =~= a.targets@.map_values(
                |w: u64| (w, ser_frame(a@)),
            ));
            assert(r@.map_values(|o: Outgoing| (o.addr, o.text@)) =~= outgoings_of(
                crate::commands::announces_view(frames@.take(k + 1)),
            ));
        }
        k = k + 1;
    }
    proof {
        assert(frames@.take(frames@.len() as int) =~= frames@);
    }
    r
}

/// Serializes an inbound command envelope; reading it back gives the
/// same envelope.
pub fn write_envelope(d: &crate::commands::ReceiveData) -> (r: String)
    ensures
        r@ == ser_envelope(d@),
{
    let mut out = String::new();
    match &d.id {
        Option::Some(t) => {
            out.append("{\"id\":");
            write_str(&mut out, t.as_str());
            out.append(",");
        },
        Option::None => {
            out.append("{");
        },
    }
    match &d.receive {
        crate::commands::ReceiveType::AccessLevelAdjustment(rx) => {
            out.append("\"type\":\"access_level_adjustment\",\"user\":");
            write_uuid_str(&mut out, rx.user);
            out.append(",\"access_level\":");
            write_access(&mut out, rx.access_level);
        },
        crate::commands::ReceiveType::Selection(rx) => {
            out.append("\"type\":\"selection\",\"elements\":");
            write_ids(&mut out, &rx.elements);
        },
        crate::commands::ReceiveType::Canvas(rx) => {
            out.append("\"type\":\"canvas\",\"canvas\":");
            write_u16(&mut out, rx.canvas);
        },
        crate::commands::ReceiveType::Elements(rx) => {
            out.append("\"type\":\"elements\",\"elements\":");
            write_elems(&mut out, &rx.elements);
            out.append(",\"deleted_elements\":");
            write_ids(&mut out, &rx.deleted_elements);
        },
    }
    out.append("}");
    proof {
        reveal(ser_cmd_body);
        assert(out@ =~= ser_envelope(d@));
    }
    out
}

} // verus!
