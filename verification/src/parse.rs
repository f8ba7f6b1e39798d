//! A verified parser for the JSON the remote endpoint answers with.  The
//! grammar is standard JSON; number literals are validated and kept as
//! text.  Each executable function returns exactly what its specification
//! counterpart defines, so properties of the parse carry over to the
//! running code.

use vstd::prelude::*;
use crate::json::{jv, jv_pairs, jv_seq, Json, JsonV};
use crate::text::{char_from_u32, chars_of, string_of_chars};

verus! {

broadcast use vstd::utf8::char_u32_cast, vstd::utf8::char_is_scalar;

/// JSON whitespace.
pub open spec fn is_ws(c: char) -> bool {
    c == ' ' || c == '\t' || c == '\n' || c == '\r'
}

/// The value of a decimal digit character, -1 for any other character.
pub open spec fn digit_val(c: char) -> int {
    if c == '0' { 0 }
    else if c == '1' { 1 }
    else if c == '2' { 2 }
    else if c == '3' { 3 }
    else if c == '4' { 4 }
    else if c == '5' { 5 }
    else if c == '6' { 6 }
    else if c == '7' { 7 }
    else if c == '8' { 8 }
    else if c == '9' { 9 }
    else { -1 }
}

/// A decimal digit.
pub open spec fn is_digit(c: char) -> bool {
    digit_val(c) >= 0
}

/// The value of a hexadecimal digit character, -1 for any other character.
pub open spec fn hex_val(c: char) -> int {
    if digit_val(c) >= 0 { digit_val(c) }
    else if c == 'a' || c == 'A' { 10 }
    else if c == 'b' || c == 'B' { 11 }
    else if c == 'c' || c == 'C' { 12 }
    else if c == 'd' || c == 'D' { 13 }
    else if c == 'e' || c == 'E' { 14 }
    else if c == 'f' || c == 'F' { 15 }
    else { -1 }
}

/// The first position at or after `i` that does not hold whitespace.
pub open spec fn skip_ws(s: Seq<char>, i: int) -> int
    decreases s.len() - i,
{
    if 0 <= i && i < s.len() && is_ws(s[i]) {
        skip_ws(s, i + 1)
    } else {
        i
    }
}

/// The first position at or after `i` that does not hold a decimal digit.
pub open spec fn digits_end(s: Seq<char>, i: int) -> int
    decreases s.len() - i,
{
    if 0 <= i && i < s.len() && is_digit(s[i]) {
        digits_end(s, i + 1)
    } else {
        i
    }
}

/// A digit run stays inside the text.
pub proof fn lemma_digits_end(s: Seq<char>, i: int)
    requires
        0 <= i <= s.len(),
    ensures
        i <= digits_end(s, i) <= s.len(),
        digits_end(s, i) < s.len() ==> !is_digit(s[digits_end(s, i)]),
    decreases s.len() - i,
{
    if i < s.len() && is_digit(s[i]) {
        lemma_digits_end(s, i + 1);
    }
}

/// A number literal starting at `i`: optional sign, integer part without
/// a leading zero, optional fraction, optional exponent.  The result is
/// the literal's text and the position after it.
pub open spec fn p_number(s: Seq<char>, i: int) -> Option<(Seq<char>, int)> {
    if !(0 <= i && i < s.len()) {
        None
    } else {
        let j0: int = if s[i] == '-' { i + 1 } else { i };
        if !(j0 < s.len() && is_digit(s[j0])) {
            None
        } else {
            let j1: int = if s[j0] == '0' { j0 + 1 } else { digits_end(s, j0) };
            let j2: int = if j1 < s.len() && s[j1] == '.' {
                if j1 + 1 < s.len() && is_digit(s[j1 + 1]) { digits_end(s, j1 + 1) } else { -1 }
            } else { j1 };
            if j2 < 0 {
                None
            } else {
                let j3: int = if j2 < s.len() && (s[j2] == 'e' || s[j2] == 'E') {
                    let j2a: int = if j2 + 1 < s.len() && (s[j2 + 1] == '+' || s[j2 + 1] == '-') {
                        j2 + 2
                    } else { j2 + 1 };
                    if j2a < s.len() && is_digit(s[j2a]) { digits_end(s, j2a) } else { -1 }
                } else { j2 };
                if j3 < 0 {
                    None
                } else {
                    Some((s.subrange(i, j3), j3))
                }
            }
        }
    }
}

/// A four-digit hexadecimal value at `i`, -1 when malformed.
pub open spec fn hex4(s: Seq<char>, i: int) -> int {
    if 0 <= i && i + 4 <= s.len() && hex_val(s[i]) >= 0 && hex_val(s[i + 1]) >= 0 && hex_val(
        s[i + 2],
    ) >= 0 && hex_val(s[i + 3]) >= 0 {
        hex_val(s[i]) * 0x1000 + hex_val(s[i + 1]) * 0x100 + hex_val(s[i + 2]) * 0x10 + hex_val(
            s[i + 3],
        )
    } else {
        -1
    }
}

/// One escape sequence starting at the backslash `i` points at: the
/// character it denotes and the position after the escape.  A `\u`
/// escape of a high surrogate must be followed by a low surrogate and
/// the pair denotes one character; a lone surrogate is malformed.
pub open spec fn p_escape(s: Seq<char>, i: int) -> Option<(char, int)> {
    if !(0 <= i && i + 1 < s.len()) {
        None
    } else {
        let c: char = s[i + 1];
        if c == '"' { Some(('"', i + 2)) }
        else if c == '\\' { Some(('\\', i + 2)) }
        else if c == '/' { Some(('/', i + 2)) }
        else if c == 'b' { Some(('\u{8}', i + 2)) }
        else if c == 'f' { Some(('\u{c}', i + 2)) }
        else if c == 'n' { Some(('\n', i + 2)) }
        else if c == 'r' { Some(('\r', i + 2)) }
        else if c == 't' { Some(('\t', i + 2)) }
        else if c == 'u' {
            let v: int = hex4(s, i + 2);
            if v < 0 {
                None
            } else if 0xD800 <= v && v < 0xDC00 {
                if i + 12 <= s.len() && s[i + 6] == '\\' && s[i + 7] == 'u' {
                    let w: int = hex4(s, i + 8);
                    if 0xDC00 <= w && w < 0xE000 {
                        Some(((((0x10000 + (v - 0xD800) * 0x400 + (w - 0xDC00)) as u32) as char), i + 12))
                    } else {
                        None
                    }
                } else {
                    None
                }
            } else if 0xDC00 <= v && v < 0xE000 {
                None
            } else {
                Some((((v as u32) as char), i + 6))
            }
        }
        else { None }
    }
}

/// The body of a string literal from `i` to its closing quote: the
/// denoted characters and the position after the quote.  An unescaped
/// control character or a broken escape is malformed.
pub open spec fn p_chars(s: Seq<char>, i: int) -> Option<(Seq<char>, int)>
    decreases s.len() - i,
{
    if !(0 <= i && i < s.len()) {
        None
    } else if s[i] == '"' {
        Some((Seq::empty(), i + 1))
    } else if s[i] == '\\' {
        match p_escape(s, i) {
            Some((c, j)) => if i < j && j <= s.len() {
                match p_chars(s, j) {
                    Some((t, k)) => Some((seq![c] + t, k)),
                    None => None,
                }
            } else {
                None
            },
            None => None,
        }
    } else if (s[i] as u32) < 0x20 {
        None
    } else {
        match p_chars(s, i + 1) {
            Some((t, k)) => Some((seq![s[i]] + t, k)),
            None => None,
        }
    }
}

/// A string literal at `i` (which must hold the opening quote).
pub open spec fn p_string(s: Seq<char>, i: int) -> Option<(Seq<char>, int)> {
    if 0 <= i && i < s.len() && s[i] == '"' {
        p_chars(s, i + 1)
    } else {
        None
    }
}

/// A JSON value starting exactly at `i`: one of the three literal words,
/// a string, a number, an array or an object.
pub open spec fn p_value(s: Seq<char>, i: int) -> Option<(JsonV, int)>
    decreases s.len() - i, 0int,
{
    if !(0 <= i && i < s.len()) {
        None
    } else {
        let c: char = s[i];
        if c == 'n' {
            if i + 4 <= s.len() && s[i + 1] == 'u' && s[i + 2] == 'l' && s[i + 3] == 'l' {
                Some((JsonV::Null, i + 4))
            } else {
                None
            }
        } else if c == 't' {
            if i + 4 <= s.len() && s[i + 1] == 'r' && s[i + 2] == 'u' && s[i + 3] == 'e' {
                Some((JsonV::Bool(true), i + 4))
            } else {
                None
            }
        } else if c == 'f' {
            if i + 5 <= s.len() && s[i + 1] == 'a' && s[i + 2] == 'l' && s[i + 3] == 's' && s[i + 4]
                == 'e' {
                Some((JsonV::Bool(false), i + 5))
            } else {
                None
            }
        } else if c == '"' {
            match p_string(s, i) {
                Some((t, j)) => Some((JsonV::Str(t), j)),
                None => None,
            }
        } else if c == '-' || is_digit(c) {
            match p_number(s, i) {
                Some((t, j)) => Some((JsonV::Num(t), j)),
                None => None,
            }
        } else if c == '[' {
            let j: int = skip_ws(s, i + 1);
            if !(i + 1 <= j && j <= s.len()) {
                None
            } else if j < s.len() && s[j] == ']' {
                Some((JsonV::Arr(Seq::empty()), j + 1))
            } else {
                match p_elems(s, i + 1) {
                    Some((vs, k)) => Some((JsonV::Arr(vs), k)),
                    None => None,
                }
            }
        } else if c == '{' {
            let j: int = skip_ws(s, i + 1);
            if !(i + 1 <= j && j <= s.len()) {
                None
            } else if j < s.len() && s[j] == '}' {
                Some((JsonV::Obj(Seq::empty()), j + 1))
            } else {
                match p_members(s, i + 1) {
                    Some((ps, k)) => Some((JsonV::Obj(ps), k)),
                    None => None,
                }
            }
        } else {
            None
        }
    }
}

/// One array element: whitespace, a value, whitespace.
pub open spec fn p_elem(s: Seq<char>, i: int) -> Option<(JsonV, int)>
    decreases s.len() - i, 1int,
{
    if !(0 <= i && i <= s.len()) {
        None
    } else {
        let j: int = skip_ws(s, i);
        if !(i <= j && j <= s.len()) {
            None
        } else {
            match p_value(s, j) {
                Some((v, k)) => if 0 <= k && k <= s.len() {
                    Some((v, skip_ws(s, k)))
                } else {
                    None
                },
                None => None,
            }
        }
    }
}

/// The elements of a non-empty array from `i` up to and including the
/// closing bracket.
pub open spec fn p_elems(s: Seq<char>, i: int) -> Option<(Seq<JsonV>, int)>
    decreases s.len() - i, 2int,
{
    if !(0 <= i && i <= s.len()) {
        None
    } else {
        match p_elem(s, i) {
            Some((v, j)) => {
                if !(i <= j && j < s.len()) {
                    None
                } else if s[j] == ',' {
                    match p_elems(s, j + 1) {
                        Some((vs, k)) => Some((seq![v] + vs, k)),
                        None => None,
                    }
                } else if s[j] == ']' {
                    Some((seq![v], j + 1))
                } else {
                    None
                }
            },
            None => None,
        }
    }
}

/// The members of a non-empty object from `i` up to and including the
/// closing brace.
pub open spec fn p_members(s: Seq<char>, i: int) -> Option<(Seq<(Seq<char>, JsonV)>, int)>
    decreases s.len() - i, 2int,
{
    if !(0 <= i && i <= s.len()) {
        None
    } else {
        let j: int = skip_ws(s, i);
        if !(i <= j && j < s.len()) {
            None
        } else {
            match p_string(s, j) {
                Some((key, j2)) => {
                    if !(j < j2 && j2 <= s.len()) {
                        None
                    } else {
                        let j3: int = skip_ws(s, j2);
                        if !(j2 <= j3 && j3 < s.len() && s[j3] == ':') {
                            None
                        } else {
                            match p_elem(s, j3 + 1) {
                                Some((v, j4)) => {
                                    if !(j3 < j4 && j4 < s.len()) {
                                        None
                                    } else if s[j4] == ',' {
                                        match p_members(s, j4 + 1) {
                                            Some((ps, k)) => Some((seq![(key, v)] + ps, k)),
                                            None => None,
                                        }
                                    } else if s[j4] == '}' {
                                        Some((seq![(key, v)], j4 + 1))
                                    } else {
                                        None
                                    }
                                },
                                None => None,
                            }
                        }
                    }
                },
                None => None,
            }
        }
    }
}

fn is_ws_x(c: char) -> (r: bool)
    ensures
        r == is_ws(c),
{
    c == ' ' || c == '\t' || c == '\n' || c == '\r'
}

pub(crate) fn digit_val_x(c: char) -> (v: i32)
    ensures
        v as int == digit_val(c),
{
    if c == '0' { 0 }
    else if c == '1' { 1 }
    else if c == '2' { 2 }
    else if c == '3' { 3 }
    else if c == '4' { 4 }
    else if c == '5' { 5 }
    else if c == '6' { 6 }
    else if c == '7' { 7 }
    else if c == '8' { 8 }
    else if c == '9' { 9 }
    else { -1 }
}

fn hex_val_x(c: char) -> (v: i32)
    ensures
        v as int == hex_val(c),
{
    let d = digit_val_x(c);
    if d >= 0 { d }
    else if c == 'a' || c == 'A' { 10 }
    else if c == 'b' || c == 'B' { 11 }
    else if c == 'c' || c == 'C' { 12 }
    else if c == 'd' || c == 'D' { 13 }
    else if c == 'e' || c == 'E' { 14 }
    else if c == 'f' || c == 'F' { 15 }
    else { -1 }
}

fn e_skip_ws(s: &Vec<char>, i: usize) -> (j: usize)
    requires
        i <= s@.len(),
    ensures
        j as int == skip_ws(s@, i as int),
        i <= j <= s@.len(),
{
    let mut j = i;
    while j < s.len() && is_ws_x(s[j])
        invariant
            i <= j <= s@.len(),
            skip_ws(s@, i as int) == skip_ws(s@, j as int),
        decreases s@.len() - j,
    {
        proof {
            assert(skip_ws(s@, j as int) == skip_ws(s@, j as int + 1));
        }
        j = j + 1;
    }
    proof {
        assert(skip_ws(s@, j as int) == j as int);
    }
    j
}

fn e_digits_end(s: &Vec<char>, i: usize) -> (j: usize)
    requires
        i <= s@.len(),
    ensures
        j as int == digits_end(s@, i as int),
        i <= j <= s@.len(),
{
    let mut j = i;
    while j < s.len() && digit_val_x(s[j]) >= 0
        invariant
            i <= j <= s@.len(),
            digits_end(s@, i as int) == digits_end(s@, j as int),
        decreases s@.len() - j,
    {
        proof {
            assert(digits_end(s@, j as int) == digits_end(s@, j as int + 1));
        }
        j = j + 1;
    }
    proof {
        assert(digits_end(s@, j as int) == j as int);
    }
    j
}

fn e_number(s: &Vec<char>, i: usize) -> (r: Option<(String, usize)>)
    requires
        i <= s@.len(),
    ensures
        match r {
            Some((t, j)) => p_number(s@, i as int) == Some((t@, j as int)) && i < j <= s@.len(),
            None => p_number(s@, i as int) is None,
        },
{
    if i >= s.len() {
        return None;
    }
    let j0: usize = if s[i] == '-' { i + 1 } else { i };
    if j0 >= s.len() || digit_val_x(s[j0]) < 0 {
        return None;
    }
    let j1: usize = if s[j0] == '0' { j0 + 1 } else { e_digits_end(s, j0) };
    let j2: usize = if j1 < s.len() && s[j1] == '.' {
        if j1 + 1 < s.len() && digit_val_x(s[j1 + 1]) >= 0 {
            e_digits_end(s, j1 + 1)
        } else {
            return None;
        }
    } else {
        j1
    };
    let j3: usize = if j2 < s.len() && (s[j2] == 'e' || s[j2] == 'E') {
        let j2a: usize = if j2 + 1 < s.len() && (s[j2 + 1] == '+' || s[j2 + 1] == '-') {
            j2 + 2
        } else {
            j2 + 1
        };
        if j2a < s.len() && digit_val_x(s[j2a]) >= 0 {
            e_digits_end(s, j2a)
        } else {
            return None;
        }
    } else {
        j2
    };
    proof {
        assert(is_digit(s@[j0 as int]));
        if s@[j0 as int] == '0' {
            assert(j0 < j1);
        } else {
            assert(digits_end(s@, j0 as int) == digits_end(s@, j0 as int + 1));
            lemma_digits_end(s@, j0 as int + 1);
            assert(j0 < j1);
        }
    }
    let mut t: Vec<char> = Vec::new();
    let mut k: usize = i;
    proof {
        assert(t@ =~= s@.subrange(i as int, i as int));
    }
    while k < j3
        invariant
            i <= k <= j3 <= s@.len(),
            t@ == s@.subrange(i as int, k as int),
        decreases j3 - k,
    {
        t.push(s[k]);
        proof {
            assert(s@.subrange(i as int, k as int + 1) =~= s@.subrange(i as int, k as int)
                + seq![s@[k as int]]);
        }
        k = k + 1;
    }
    let txt = string_of_chars(&t);
    Some((txt, j3))
}

fn e_hex4(s: &Vec<char>, i: usize) -> (v: i64)
    requires
        i <= s@.len(),
    ensures
        v as int == hex4(s@, i as int),
{
    if s.len() - i < 4 {
        return -1;
    }
    let a = hex_val_x(s[i]);
    let b = hex_val_x(s[i + 1]);
    let c = hex_val_x(s[i + 2]);
    let d = hex_val_x(s[i + 3]);
    if a < 0 || b < 0 || c < 0 || d < 0 {
        return -1;
    }
    (a as i64) * 0x1000 + (b as i64) * 0x100 + (c as i64) * 0x10 + (d as i64)
}

fn e_escape(s: &Vec<char>, i: usize) -> (r: Option<(char, usize)>)
    requires
        i <= s@.len(),
    ensures
        match r {
            Some((c, j)) => p_escape(s@, i as int) == Some((c, j as int)) && i < j <= s@.len(),
            None => p_escape(s@, i as int) is None,
        },
{
    if s.len() - i < 2 {
        return None;
    }
    let c = s[i + 1];
    if c == '"' { Some(('"', i + 2)) }
    else if c == '\\' { Some(('\\', i + 2)) }
    else if c == '/' { Some(('/', i + 2)) }
    else if c == 'b' { Some(('\u{8}', i + 2)) }
    else if c == 'f' { Some(('\u{c}', i + 2)) }
    else if c == 'n' { Some(('\n', i + 2)) }
    else if c == 'r' { Some(('\r', i + 2)) }
    else if c == 't' { Some(('\t', i + 2)) }
    else if c == 'u' {
        let v = e_hex4(s, i + 2);
        if v < 0 {
            None
        } else if 0xD800 <= v && v < 0xDC00 {
            if s.len() - i >= 12 && s[i + 6] == '\\' && s[i + 7] == 'u' {
                let w = e_hex4(s, i + 8);
                if 0xDC00 <= w && w < 0xE000 {
                    let code: i64 = 0x10000 + (v - 0xD800) * 0x400 + (w - 0xDC00);
                    proof {
                        assert(0x10000 <= code <= 0x10FFFF);
                        assert((code as u32) as int == code as int);
                    }
                    match char_from_u32(code as u32) {
                        Some(ch) => {
                            proof {
                                let ghost sv = hex4(s@, i as int + 2);
                                let ghost sw = hex4(s@, i as int + 8);
                                let ghost scode = 0x10000 + (sv - 0xD800) * 0x400 + (sw - 0xDC00);
                                assert(scode == code as int);
                                assert(ch as u32 == code as u32);
                                assert(ch == ((ch as u32) as char));
                                assert(ch == ((scode as u32) as char));
                            }
                            Some((ch, i + 12))
                        },
                        None => {
                            proof {
                                assert(false);
                            }
                            None
                        },
                    }
                } else {
                    None
                }
            } else {
                None
            }
        } else if 0xDC00 <= v && v < 0xE000 {
            None
        } else {
            proof {
                assert(0 <= v <= 0xFFFF);
                assert((v as u32) as int == v as int);
            }
            match char_from_u32(v as u32) {
                Some(ch) => {
                    proof {
                        let ghost sv = hex4(s@, i as int + 2);
                        assert(sv == v as int);
                        assert(ch as u32 == v as u32);
                        assert(ch == ((ch as u32) as char));
                        assert(ch == ((sv as u32) as char));
                    }
                    Some((ch, i + 6))
                },
                None => {
                    proof {
                        assert(false);
                    }
                    None
                },
            }
        }
    }
    else { None }
}

fn e_chars(s: &Vec<char>, i: usize) -> (r: Option<(Vec<char>, usize)>)
    requires
        i <= s@.len(),
    ensures
        match r {
            Some((t, j)) => p_chars(s@, i as int) == Some((t@, j as int)) && i < j <= s@.len(),
            None => p_chars(s@, i as int) is None,
        },
    decreases s@.len() - i,
{
    if i >= s.len() {
        return None;
    }
    let c = s[i];
    if c == '"' {
        let t: Vec<char> = Vec::new();
        proof {
            assert(t@ =~= Seq::<char>::empty());
        }
        Some((t, i + 1))
    } else if c == '\\' {
        match e_escape(s, i) {
            Some((ch, j)) => {
                match e_chars(s, j) {
                    Some((t2, k)) => {
                        let mut t = t2;
                        t.insert(0, ch);
                        proof {
                            assert(t@ =~= seq![ch] + t@.subrange(1, t@.len() as int));
                        }
                        Some((t, k))
                    },
                    None => None,
                }
            },
            None => None,
        }
    } else if (c as u32) < 0x20 {
        None
    } else {
        match e_chars(s, i + 1) {
            Some((t2, k)) => {
                let mut t = t2;
                t.insert(0, c);
                proof {
                    assert(t@ =~= seq![c] + t@.subrange(1, t@.len() as int));
                }
                Some((t, k))
            },
            None => None,
        }
    }
}

fn e_string(s: &Vec<char>, i: usize) -> (r: Option<(String, usize)>)
    requires
        i <= s@.len(),
    ensures
        match r {
            Some((t, j)) => p_string(s@, i as int) == Some((t@, j as int)) && i < j <= s@.len(),
            None => p_string(s@, i as int) is None,
        },
{
    if i >= s.len() || s[i] != '"' {
        return None;
    }
    match e_chars(s, i + 1) {
        Some((t, j)) => Some((string_of_chars(&t), j)),
        None => None,
    }
}

fn e_value(s: &Vec<char>, i: usize) -> (r: Option<(Json, usize)>)
    requires
        i <= s@.len(),
    ensures
        match r {
            Some((v, j)) => p_value(s@, i as int) == Some((jv(v), j as int)) && i < j <= s@.len(),
            None => p_value(s@, i as int) is None,
        },
    decreases s@.len() - i, 0int,
{
    if i >= s.len() {
        return None;
    }
    let c = s[i];
    if c == 'n' {
        if s.len() - i >= 4 && s[i + 1] == 'u' && s[i + 2] == 'l' && s[i + 3] == 'l' {
            Some((Json::Null, i + 4))
        } else {
            None
        }
    } else if c == 't' {
        if s.len() - i >= 4 && s[i + 1] == 'r' && s[i + 2] == 'u' && s[i + 3] == 'e' {
            Some((Json::Bool(true), i + 4))
        } else {
            None
        }
    } else if c == 'f' {
        if s.len() - i >= 5 && s[i + 1] == 'a' && s[i + 2] == 'l' && s[i + 3] == 's' && s[i + 4]
            == 'e' {
            Some((Json::Bool(false), i + 5))
        } else {
            None
        }
    } else if c == '"' {
        match e_string(s, i) {
            Some((t, j)) => Some((Json::Str(t), j)),
            None => None,
        }
    } else if c == '-' || digit_val_x(c) >= 0 {
        match e_number(s, i) {
            Some((t, j)) => Some((Json::Num(t), j)),
            None => None,
        }
    } else if c == '[' {
        let j = e_skip_ws(s, i + 1);
        if j < s.len() && s[j] == ']' {
            let items: Vec<Json> = Vec::new();
            proof {
                assert(jv_seq(items@) =~= Seq::<JsonV>::empty());
            }
            Some((Json::Arr(items), j + 1))
        } else {
            match e_elems(s, i + 1) {
                Some((items, k)) => Some((Json::Arr(items), k)),
                None => None,
            }
        }
    } else if c == '{' {
        let j = e_skip_ws(s, i + 1);
        if j < s.len() && s[j] == '}' {
            let pairs: Vec<(String, Json)> = Vec::new();
            proof {
                assert(jv_pairs(pairs@) =~= Seq::<(Seq<char>, JsonV)>::empty());
            }
            Some((Json::Obj(pairs), j + 1))
        } else {
            match e_members(s, i + 1) {
                Some((pairs, k)) => Some((Json::Obj(pairs), k)),
                None => None,
            }
        }
    } else {
        None
    }
}

fn e_elem(s: &Vec<char>, i: usize) -> (r: Option<(Json, usize)>)
    requires
        i <= s@.len(),
    ensures
        match r {
            Some((v, j)) => p_elem(s@, i as int) == Some((jv(v), j as int)) && i <= j <= s@.len(),
            None => p_elem(s@, i as int) is None,
        },
    decreases s@.len() - i, 1int,
{
    let j = e_skip_ws(s, i);
    match e_value(s, j) {
        Some((v, k)) => {
            let m = e_skip_ws(s, k);
            Some((v, m))
        },
        None => None,
    }
}

fn e_elems(s: &Vec<char>, i: usize) -> (r: Option<(Vec<Json>, usize)>)
    requires
        i <= s@.len(),
    ensures
        match r {
            Some((items, j)) => p_elems(s@, i as int) == Some((jv_seq(items@), j as int)) && i <= j
                <= s@.len(),
            None => p_elems(s@, i as int) is None,
        },
    decreases s@.len() - i, 2int,
{
    match e_elem(s, i) {
        Some((v, j)) => {
            if j >= s.len() {
                None
            } else if s[j] == ',' {
                match e_elems(s, j + 1) {
                    Some((rest, k)) => {
                        let ghost old_rest = rest@;
                        let mut items = rest;
                        items.insert(0, v);
                        proof {
                            assert(items@[0] == v);
                            assert(items@.subrange(1, items@.len() as int) =~= old_rest);
                            assert(jv_seq(items@) == seq![jv(items@[0])] + jv_seq(
                                items@.subrange(1, items@.len() as int),
                            ));
                        }
                        Some((items, k))
                    },
                    None => None,
                }
            } else if s[j] == ']' {
                let mut items: Vec<Json> = Vec::new();
                items.push(v);
                proof {
                    assert(items@ =~= seq![v]);
                    assert(items@[0] == v);
                    assert(items@.subrange(1, items@.len() as int) =~= Seq::<Json>::empty());
                    assert(jv_seq(Seq::<Json>::empty()) == Seq::<JsonV>::empty());
                    assert(jv_seq(items@) == seq![jv(items@[0])] + jv_seq(
                        items@.subrange(1, items@.len() as int),
                    ));
                    assert(jv_seq(items@) =~= seq![jv(v)]);
                }
                Some((items, j + 1))
            } else {
                None
            }
        },
        None => None,
    }
}

fn e_members(s: &Vec<char>, i: usize) -> (r: Option<(Vec<(String, Json)>, usize)>)
    requires
        i <= s@.len(),
    ensures
        match r {
            Some((pairs, j)) => p_members(s@, i as int) == Some((jv_pairs(pairs@), j as int)) && i
                <= j <= s@.len(),
            None => p_members(s@, i as int) is None,
        },
    decreases s@.len() - i, 2int,
{
    let j = e_skip_ws(s, i);
    if j >= s.len() {
        return None;
    }
    match e_string(s, j) {
        Some((key, j2)) => {
            let j3 = e_skip_ws(s, j2);
            if j3 >= s.len() || s[j3] != ':' {
                return None;
            }
            match e_elem(s, j3 + 1) {
                Some((v, j4)) => {
                    if j4 >= s.len() {
                        None
                    } else if s[j4] == ',' {
                        let ghost keyv = key@;
                        match e_members(s, j4 + 1) {
                            Some((rest, k)) => {
                                let ghost old_rest = rest@;
                                let mut pairs = rest;
                                pairs.insert(0, (key, v));
                                proof {
                                    assert(pairs@[0].0@ == keyv && pairs@[0].1 == v);
                                    assert(pairs@.subrange(1, pairs@.len() as int) =~= old_rest);
                                    assert(jv_pairs(pairs@) == seq![(pairs@[0].0@, jv(
                                        pairs@[0].1,
                                    ))] + jv_pairs(pairs@.subrange(1, pairs@.len() as int)));
                                    assert(jv_pairs(pairs@) =~= seq![(keyv, jv(v))] + jv_pairs(
                                        old_rest,
                                    ));
                                }
                                Some((pairs, k))
                            },
                            None => None,
                        }
                    } else if s[j4] == '}' {
                        let ghost keyv = key@;
                        let mut pairs: Vec<(String, Json)> = Vec::new();
                        pairs.push((key, v));
                        proof {
                            assert(pairs@[0].0@ == keyv && pairs@[0].1 == v);
                            assert(pairs@.subrange(1, pairs@.len() as int) =~= Seq::<
                                (String, Json),
                            >::empty());
                            assert(jv_pairs(Seq::<(String, Json)>::empty()) == Seq::<
                                (Seq<char>, JsonV),
                            >::empty());
                            assert(jv_pairs(pairs@) == seq![(pairs@[0].0@, jv(pairs@[0].1))]
                                + jv_pairs(pairs@.subrange(1, pairs@.len() as int)));
                            assert(jv_pairs(pairs@) =~= seq![(keyv, jv(v))]);
                        }
                        Some((pairs, j4 + 1))
                    } else {
                        None
                    }
                },
                None => None,
            }
        },
        None => None,
    }
}

/// Parses a whole response body: one JSON value surrounded by optional
/// whitespace, reaching the end of the text; anything else is malformed.
pub fn parse_document(body: &str) -> (r: Option<Json>)
    ensures
        match r {
            Some(j) => p_doc(body@) == Some(jv(j)),
            None => p_doc(body@) is None,
        },
{
    let s = chars_of(body);
    let i = e_skip_ws(&s, 0);
    match e_value(&s, i) {
        Some((v, j)) => {
            let k = e_skip_ws(&s, j);
            if k == s.len() {
                Some(v)
            } else {
                None
            }
        },
        None => None,
    }
}

/// A whole response body: one value, surrounded by whitespace, reaching
/// the end of the text.
pub open spec fn p_doc(s: Seq<char>) -> Option<JsonV> {
    let i: int = skip_ws(s, 0);
    if !(0 <= i && i <= s.len()) {
        None
    } else {
        match p_value(s, i) {
            Some((v, j)) => if 0 <= j && j <= s.len() && skip_ws(s, j) == s.len() {
                Some(v)
            } else {
                None
            },
            None => None,
        }
    }
}

} // verus!
