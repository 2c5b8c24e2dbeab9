//! Colors in normalized `#rrggbbaa` form.
//!
//! A color string may arrive as `#rgb`, `#rgba`, `#rrggbb` or `#rrggbbaa`
//! (the leading hash optional, digits in either case); it is normalized to
//! a lowercase `#rrggbbaa` string. A missing alpha defaults to `ff`.

use vstd::prelude::*;
use vstd::string::*;

verus! {

/// A lowercase hexadecimal digit: `0`..`9` or `a`..`f`.
pub open spec fn is_lower_hex_digit(c: char) -> bool {
    (48 <= c as int && c as int <= 57) || (97 <= c as int && c as int <= 102)
}

/// A hexadecimal digit in either case.
pub open spec fn is_hex_digit(c: char) -> bool {
    is_lower_hex_digit(c) || (65 <= c as int && c as int <= 70)
}

/// Maps an uppercase hexadecimal digit to its lowercase form; other
/// characters are unchanged.
pub open spec fn lower_hex(c: char) -> char {
    if c == 'A' {
        'a'
    } else if c == 'B' {
        'b'
    } else if c == 'C' {
        'c'
    } else if c == 'D' {
        'd'
    } else if c == 'E' {
        'e'
    } else if c == 'F' {
        'f'
    } else {
        c
    }
}

/// A well-formed normalized color string: `#` followed by exactly eight
/// lowercase hexadecimal digits.
pub open spec fn color_wf(s: Seq<char>) -> bool {
    &&& s.len() == 9
    &&& s[0] == '#'
    &&& forall|i: int| 1 <= i < 9 ==> is_lower_hex_digit(#[trigger] s[i])
}

/// The normalized `#rrggbbaa` form of a color string, or `None` when the
/// string cannot be read as a color.
pub open spec fn color_normalized(s: Seq<char>) -> Option<Seq<char>> {
    let t = if s.len() > 0 && s[0] == '#' {
        s.skip(1)
    } else {
        s
    };
    if t.len() == 3 || t.len() == 4 {
        let a = if t.len() == 4 {
            t[3]
        } else {
            'f'
        };
        if is_hex_digit(t[0]) && is_hex_digit(t[1]) && is_hex_digit(t[2]) && is_hex_digit(a) {
            Some(
                seq![
                    '#',
                    lower_hex(t[0]), lower_hex(t[0]),
                    lower_hex(t[1]), lower_hex(t[1]),
                    lower_hex(t[2]), lower_hex(t[2]),
                    lower_hex(a), lower_hex(a),
                ],
            )
        } else {
            None
        }
    } else if t.len() == 6 || t.len() == 8 {
        let a1 = if t.len() == 8 {
            t[6]
        } else {
            'f'
        };
        let a2 = if t.len() == 8 {
            t[7]
        } else {
            'f'
        };
        if is_hex_digit(t[0]) && is_hex_digit(t[1]) && is_hex_digit(t[2]) && is_hex_digit(t[3])
            && is_hex_digit(t[4]) && is_hex_digit(t[5]) && is_hex_digit(a1) && is_hex_digit(a2) {
            Some(
                seq![
                    '#',
                    lower_hex(t[0]), lower_hex(t[1]),
                    lower_hex(t[2]), lower_hex(t[3]),
                    lower_hex(t[4]), lower_hex(t[5]),
                    lower_hex(a1), lower_hex(a2),
                ],
            )
        } else {
            None
        }
    } else {
        None
    }
}

/// A color, stored in its normalized `#rrggbbaa` form.
pub struct Color {
    text: String,
}

/// Error returned when a string cannot be read as a color.
#[derive(Debug, PartialEq, Eq, Structural)]
pub struct ParseColorError;

impl View for Color {
    type V = Seq<char>;

    closed spec fn view(&self) -> Seq<char> {
        self.text@
    }
}

impl Clone for Color {
    fn clone(&self) -> (r: Self)
        ensures
            r@ == self@,
    {
        Color { text: clone_string(&self.text) }
    }
}

impl PartialEq for Color {
    fn eq(&self, other: &Self) -> (r: bool)
        ensures
            r == (self@ == other@),
    {
        self.text == other.text
    }
}

impl Eq for Color {

}

impl vstd::std_specs::cmp::PartialEqSpecImpl for Color {
    open spec fn obeys_eq_spec() -> bool {
        true
    }

    open spec fn eq_spec(&self, other: &Self) -> bool {
        self@ == other@
    }
}

/// Appends one character to a string.
///
/// Relies on `String::push`: appends exactly the given character.
#[verifier::external_body]
pub(crate) fn push_char(s: &mut String, c: char)
    ensures
        final(s)@ == old(s)@.push(c),
{
    s.push(c)
}

/// Copies a string.
///
/// Relies on `String::clone`: the copy holds the same characters.
#[verifier::external_body]
pub(crate) fn clone_string(s: &String) -> (r: String)
    ensures
        r@ == s@,
{
    s.clone()
}

fn is_hex_digit_exec(c: char) -> (r: bool)
    ensures
        r == is_hex_digit(c),
{
    let u = c as u32;
    (48 <= u && u <= 57) || (97 <= u && u <= 102) || (65 <= u && u <= 70)
}

fn lower_hex_exec(c: char) -> (r: char)
    ensures
        r == lower_hex(c),
{
    match c {
        'A' => 'a',
        'B' => 'b',
        'C' => 'c',
        'D' => 'd',
        'E' => 'e',
        'F' => 'f',
        _ => c,
    }
}

impl Color {
    /// The color is held in its normalized form.
    pub open spec fn wf(&self) -> bool {
        color_wf(self@)
    }

    /// The normalized `#rrggbbaa` text of this color.
    pub fn as_str(&self) -> (r: &str)
        ensures
            r@ == self@,
    {
        self.text.as_str()
    }

    /// Reads a color string, accepting `#rgb`, `#rgba`, `#rrggbb` and
    /// `#rrggbbaa` with an optional leading hash, and returns its
    /// normalized lowercase `#rrggbbaa` form.
    pub fn new(s: &str) -> (r: Result<Color, ParseColorError>)
        ensures
            match r {
                Ok(c) => color_normalized(s@) == Some(c@) && c.wf(),
                Err(_) => color_normalized(s@) is None,
            },
    {
        let n = s.unicode_len();
        let ghost t = if s@.len() > 0 && s@[0] == '#' {
            s@.skip(1)
        } else {
            s@
        };
        let (start, t_len): (usize, usize) = if n > 0 && s.get_char(0) == '#' {
            (1, n - 1)
        } else {
            (0, n)
        };
        proof {
            assert(t.len() == t_len);
            assert(forall|i: int| 0 <= i < t.len() ==> t[i] == s@[start + i]);
        }
        if t_len == 3 || t_len == 4 {
            let c0 = s.get_char(start);
            let c1 = s.get_char(start + 1);
            let c2 = s.get_char(start + 2);
            let a = if t_len == 4 {
                s.get_char(start + 3)
            } else {
                'f'
            };
            if is_hex_digit_exec(c0) && is_hex_digit_exec(c1) && is_hex_digit_exec(c2)
                && is_hex_digit_exec(a) {
                let mut out = String::new();
                push_char(&mut out, '#');
                let l0 = lower_hex_exec(c0);
                let l1 = lower_hex_exec(c1);
                let l2 = lower_hex_exec(c2);
                let la = lower_hex_exec(a);
                push_char(&mut out, l0);
                push_char(&mut out, l0);
                push_char(&mut out, l1);
                push_char(&mut out, l1);
                push_char(&mut out, l2);
                push_char(&mut out, l2);
                push_char(&mut out, la);
                push_char(&mut out, la);
                proof {
                    assert(color_normalized(s@) matches Some(v) && v =~= out@);
                }
                Ok(Color { text: out })
            } else {
                Err(ParseColorError)
            }
        } else if t_len == 6 || t_len == 8 {
            let c0 = s.get_char(start);
            let c1 = s.get_char(start + 1);
            let c2 = s.get_char(start + 2);
            let c3 = s.get_char(start + 3);
            let c4 = s.get_char(start + 4);
            let c5 = s.get_char(start + 5);
            let a1 = if t_len == 8 {
                s.get_char(start + 6)
            } else {
                'f'
            };
            let a2 = if t_len == 8 {
                s.get_char(start + 7)
            } else {
                'f'
            };
            if is_hex_digit_exec(c0) && is_hex_digit_exec(c1) && is_hex_digit_exec(c2)
                && is_hex_digit_exec(c3) && is_hex_digit_exec(c4) && is_hex_digit_exec(c5)
                && is_hex_digit_exec(a1) && is_hex_digit_exec(a2) {
                let mut out = String::new();
                push_char(&mut out, '#');
                push_char(&mut out, lower_hex_exec(c0));
                push_char(&mut out, lower_hex_exec(c1));
                push_char(&mut out, lower_hex_exec(c2));
                push_char(&mut out, lower_hex_exec(c3));
                push_char(&mut out, lower_hex_exec(c4));
                push_char(&mut out, lower_hex_exec(c5));
                push_char(&mut out, lower_hex_exec(a1));
                push_char(&mut out, lower_hex_exec(a2));
                proof {
                    assert(color_normalized(s@) matches Some(v) && v =~= out@);
                }
                Ok(Color { text: out })
            } else {
                Err(ParseColorError)
            }
        } else {
            Err(ParseColorError)
        }
    }
}

/// Normalizing an already-normalized color string gives it back unchanged:
/// reading the printed form of a color yields the same color.
pub proof fn lemma_color_normalize_idempotent(s: Seq<char>)
    requires
        color_wf(s),
    ensures
        color_normalized(s) == Some(s),
{
    let t = s.skip(1);
    assert(t.len() == 8);
    assert(forall|i: int| 0 <= i < 8 ==> t[i] == s[i + 1]);
    assert(forall|i: int| 0 <= i < 8 ==> is_lower_hex_digit(#[trigger] t[i]));
    assert(color_normalized(s) matches Some(v) && v =~= s);
}

/// The fully transparent color `#00000000`.
pub open spec fn transparent_seq() -> Seq<char> {
    seq!['#', '0', '0', '0', '0', '0', '0', '0', '0']
}

/// The fully transparent color `#00000000`.
pub fn transparent_color() -> (c: Color)
    ensures
        c@ == transparent_seq(),
        c.wf(),
{
    let mut t = String::new();
    push_char(&mut t, '#');
    let mut i: usize = 0;
    while i < 8
        invariant
            i <= 8,
            t@.len() == i + 1,
            t@[0] == '#',
            forall|j: int| 1 <= j < i + 1 ==> t@[j] == '0',
        decreases 8 - i,
    {
        push_char(&mut t, '0');
        i = i + 1;
    }
    proof {
        assert(t@ =~= transparent_seq());
    }
    Color { text: t }
}

/// The palette that a random color is drawn from, normalized.
pub open spec fn palette_seq(i: int) -> Seq<char> {
    if i == 0 {
        seq!['#', 'e', 'f', '4', '4', '4', '4', 'f', 'f']
    } else if i == 1 {
        seq!['#', 'f', '9', '7', '3', '1', '6', 'f', 'f']
    } else if i == 2 {
        seq!['#', 'e', 'a', 'b', '3', '0', '8', 'f', 'f']
    } else if i == 3 {
        seq!['#', '8', '4', 'c', 'c', '1', '6', 'f', 'f']
    } else if i == 4 {
        seq!['#', '1', '0', 'b', '9', '8', '1', 'f', 'f']
    } else if i == 5 {
        seq!['#', '0', '6', 'b', '6', 'd', '4', 'f', 'f']
    } else if i == 6 {
        seq!['#', '6', '3', '6', '6', 'f', '1', 'f', 'f']
    } else if i == 7 {
        seq!['#', 'a', '8', '5', '5', 'f', '7', 'f', 'f']
    } else {
        seq!['#', 'e', '8', '7', '9', 'f', '9', 'f', 'f']
    }
}

/// Whether `s` is one of the palette colors.
pub open spec fn palette_member(s: Seq<char>) -> bool {
    exists|i: int| 0 <= i < 9 && s == palette_seq(i)
}

fn color_of_digits(
    c1: char,
    c2: char,
    c3: char,
    c4: char,
    c5: char,
    c6: char,
    c7: char,
    c8: char,
) -> (c: Color)
    requires
        is_lower_hex_digit(c1),
        is_lower_hex_digit(c2),
        is_lower_hex_digit(c3),
        is_lower_hex_digit(c4),
        is_lower_hex_digit(c5),
        is_lower_hex_digit(c6),
        is_lower_hex_digit(c7),
        is_lower_hex_digit(c8),
    ensures
        c@ == seq!['#', c1, c2, c3, c4, c5, c6, c7, c8],
        c.wf(),
{
    let mut t = String::new();
    push_char(&mut t, '#');
    push_char(&mut t, c1);
    push_char(&mut t, c2);
    push_char(&mut t, c3);
    push_char(&mut t, c4);
    push_char(&mut t, c5);
    push_char(&mut t, c6);
    push_char(&mut t, c7);
    push_char(&mut t, c8);
    proof {
        assert(t@ =~= seq!['#', c1, c2, c3, c4, c5, c6, c7, c8]);
    }
    Color { text: t }
}

/// Draws an index below `n`.
///
/// Relies on `rand::random_range`: a uniformly drawn value of the given
/// range; it panics only on an empty range, which the requires excludes.
/// Nothing more is promised of the value: it is random.
#[verifier::external_body]
fn pick_index(n: usize) -> (r: usize)
    requires
        n > 0,
    ensures
        r < n,
{
    rand::random_range(0..n)
}

impl Color {
    /// A color drawn at random from the palette.
    pub fn get_random_color() -> (c: Color)
        ensures
            c.wf(),
            palette_member(c@),
    {
        let i = pick_index(9);
        let c = match i {
            0 => color_of_digits('e', 'f', '4', '4', '4', '4', 'f', 'f'),
            1 => color_of_digits('f', '9', '7', '3', '1', '6', 'f', 'f'),
            2 => color_of_digits('e', 'a', 'b', '3', '0', '8', 'f', 'f'),
            3 => color_of_digits('8', '4', 'c', 'c', '1', '6', 'f', 'f'),
            4 => color_of_digits('1', '0', 'b', '9', '8', '1', 'f', 'f'),
            5 => color_of_digits('0', '6', 'b', '6', 'd', '4', 'f', 'f'),
            6 => color_of_digits('6', '3', '6', '6', 'f', '1', 'f', 'f'),
            7 => color_of_digits('a', '8', '5', '5', 'f', '7', 'f', 'f'),
            _ => color_of_digits('e', '8', '7', '9', 'f', '9', 'f', 'f'),
        };
        proof {
            if i == 0 {
                assert(c@ == palette_seq(0));
            } else if i == 1 {
                assert(c@ == palette_seq(1));
            } else if i == 2 {
                assert(c@ == palette_seq(2));
            } else if i == 3 {
                assert(c@ == palette_seq(3));
            } else if i == 4 {
                assert(c@ == palette_seq(4));
            } else if i == 5 {
                assert(c@ == palette_seq(5));
            } else if i == 6 {
                assert(c@ == palette_seq(6));
            } else if i == 7 {
                assert(c@ == palette_seq(7));
            } else {
                assert(c@ == palette_seq(8));
            }
        }
        c
    }
}

/// Wraps raw text as a color value, for the codec: wire colors are
/// carried as given.
pub(crate) fn color_from_text(t: String) -> (c: Color)
    ensures
        c@ == t@,
{
    Color { text: t }
}

} // verus!
