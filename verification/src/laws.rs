//! The encode/decode round trip: parsing the serialized request body
//! recovers the document and every variable binding exactly.

use vstd::prelude::*;
use crate::encode::{dec_digits, enc_int, enc_member, enc_pairs, enc_scalar, enc_string, enc_vars, esc_char, esc_seq, hex_digit, request_body};
use crate::json::JsonV;
use crate::parse::{digit_val, digits_end, hex4, hex_val, is_digit, is_ws, p_chars, p_doc, p_elem, p_members, p_number, p_string, p_value, skip_ws};
use crate::vars::ScalarV;

verus! {

/// The JSON value a variable binding denotes on the wire: a number
/// travels as its decimal literal, everything else as itself.
pub open spec fn scalar_jv(v: ScalarV) -> JsonV {
    match v {
        ScalarV::Null => JsonV::Null,
        ScalarV::Bool(b) => JsonV::Bool(b),
        ScalarV::Num(n) => JsonV::Num(enc_int(n)),
        ScalarV::Str(s) => JsonV::Str(s),
    }
}

/// The object members a variables mapping denotes.
pub open spec fn vars_members(vars: Seq<(Seq<char>, ScalarV)>) -> Seq<(Seq<char>, JsonV)> {
    Seq::new(vars.len(), |i: int| (vars[i].0, scalar_jv(vars[i].1)))
}

/// Skipping whitespace at a non-whitespace position stands still.
proof fn l_skip_ws_id(s: Seq<char>, i: int)
    requires
        0 <= i <= s.len(),
        i < s.len() ==> !is_ws(s[i]),
    ensures
        skip_ws(s, i) == i,
{
}

/// Reading back the digit character of a small value.
proof fn l_hex_inv(v: int)
    requires
        0 <= v < 16,
    ensures
        hex_val(hex_digit(v)) == v,
        v < 10 ==> digit_val(hex_digit(v)) == v,
        is_digit(hex_digit(v)) <==> v < 10,
{
}

/// Where a text holds an encoding, the characters can be read off at any
/// offset.
proof fn l_sub_at(s: Seq<char>, i: int, j: int, t: Seq<char>, q: int)
    requires
        0 <= i <= j <= s.len(),
        s.subrange(i, j) == t,
        0 <= q < t.len(),
    ensures
        s[i + q] == t[q],
{
    assert(s.subrange(i, j)[q] == t[q]);
}

/// A later stretch of a held encoding is held too.
proof fn l_sub_tail(s: Seq<char>, i: int, j: int, t: Seq<char>, m: int)
    requires
        0 <= i <= j <= s.len(),
        s.subrange(i, j) == t,
        0 <= m <= t.len(),
    ensures
        s.subrange(i + m, j) =~= t.skip(m),
{
    assert forall|q: int| 0 <= q < t.len() - m implies s.subrange(i + m, j)[q] == t.skip(m)[q] by {
        assert(s.subrange(i, j)[m + q] == t[m + q]);
    }
}

/// Parsing the escaped body of a string recovers exactly the original
/// characters and stops right after the closing quote.
proof fn l_chars_enc(s: Seq<char>, i: int, t: Seq<char>, j: int)
    requires
        0 <= i,
        i + esc_seq(t).len() + 1 == j,
        j <= s.len(),
        s.subrange(i, j - 1) == esc_seq(t),
        s[j - 1] == '"',
    ensures
        p_chars(s, i) == Some((t, j)),
    decreases t.len(),
{
    if t.len() == 0 {
        assert(s[i] == '"');
    } else {
        let c = t[0];
        let e = esc_char(c);
        assert(esc_seq(t) == e + esc_seq(t.drop_first()));
        let m = i + e.len();
        l_sub_at(s, i, j - 1, esc_seq(t), 0);
        assert(s[i] == e[0]);
        l_sub_tail(s, i, j - 1, esc_seq(t), e.len() as int);
        assert(esc_seq(t).skip(e.len() as int) =~= esc_seq(t.drop_first()));
        assert(s.subrange(m, j - 1) =~= esc_seq(t.drop_first()));
        l_chars_enc(s, m, t.drop_first(), j);
        if c == '"' {
            l_sub_at(s, i, j - 1, esc_seq(t), 1);
            assert(s[i] == '\\' && s[i + 1] == '"');
            assert(seq![c] + t.drop_first() =~= t);
        } else if c == '\\' {
            l_sub_at(s, i, j - 1, esc_seq(t), 1);
            assert(s[i] == '\\' && s[i + 1] == '\\');
            assert(seq![c] + t.drop_first() =~= t);
        } else if (c as u32) < 0x20 {
            l_sub_at(s, i, j - 1, esc_seq(t), 1);
            l_sub_at(s, i, j - 1, esc_seq(t), 2);
            l_sub_at(s, i, j - 1, esc_seq(t), 3);
            l_sub_at(s, i, j - 1, esc_seq(t), 4);
            l_sub_at(s, i, j - 1, esc_seq(t), 5);
            assert(s[i] == '\\' && s[i + 1] == 'u' && s[i + 2] == '0' && s[i + 3] == '0');
            assert(s[i + 4] == hex_digit(((c as u32) / 16) as int));
            assert(s[i + 5] == hex_digit(((c as u32) % 16) as int));
            l_hex_inv(0);
            l_hex_inv(((c as u32) / 16) as int);
            l_hex_inv(((c as u32) % 16) as int);
            assert(hex4(s, i + 2) == ((c as u32) / 16) * 16 + ((c as u32) % 16));
            assert(hex4(s, i + 2) == c as u32 as int);
            assert(((c as u32 as int) as u32) as char == c) by {
                vstd::utf8::char_u32_cast(c, c as u32);
                assert((c as u32 as int) as u32 == c as u32);
            }
            assert(p_chars(s, i) == Some((seq![c] + t.drop_first(), j)));
            assert(seq![c] + t.drop_first() =~= t);
        } else {
            assert(s[i] == c);
            assert(c != '"' && c != '\\');
            assert(seq![c] + t.drop_first() =~= t);
        }
    }
}

/// Parsing an encoded string literal recovers the original text.
proof fn l_string_enc(s: Seq<char>, i: int, t: Seq<char>, j: int)
    requires
        0 <= i,
        i + enc_string(t).len() == j,
        j <= s.len(),
        s.subrange(i, j) == enc_string(t),
    ensures
        p_string(s, i) == Some((t, j)),
{
    l_sub_at(s, i, j, enc_string(t), 0);
    assert(s[i] == '"');
    l_sub_tail(s, i, j, enc_string(t), 1);
    assert(enc_string(t).skip(1) =~= esc_seq(t) + seq!['"']);
    assert(s.subrange(i + 1, j) =~= esc_seq(t) + seq!['"']);
    l_sub_at(s, i + 1, j, esc_seq(t) + seq!['"'], esc_seq(t).len() as int);
    assert(s[j - 1] == '"');
    assert(s.subrange(i + 1, j - 1) =~= esc_seq(t)) by {
        assert(forall|q: int|
            0 <= q < esc_seq(t).len() ==> #[trigger] s.subrange(i + 1, j - 1)[q] == s.subrange(
                i + 1,
                j,
            )[q]);
    }
    l_chars_enc(s, i + 1, t, j);
}

/// A split of a held encoding into two stretches.
proof fn l_split(s: Seq<char>, i: int, a: Seq<char>, b: Seq<char>, j: int)
    requires
        0 <= i,
        i + a.len() + b.len() == j,
        j <= s.len(),
        s.subrange(i, j) == a + b,
    ensures
        s.subrange(i, i + a.len()) =~= a,
        s.subrange(i + a.len(), j) =~= b,
{
    assert forall|q: int| 0 <= q < a.len() implies s.subrange(i, i + a.len())[q] == a[q] by {
        assert(s.subrange(i, j)[q] == (a + b)[q]);
    }
    assert forall|q: int| 0 <= q < b.len() implies s.subrange(i + a.len(), j)[q] == b[q] by {
        assert(s.subrange(i, j)[a.len() + q] == (a + b)[a.len() + q]);
        assert(s.subrange(i, j)[a.len() + q] == s[i + a.len() + q]);
        assert(s.subrange(i + a.len(), j)[q] == s[i + a.len() + q]);
    }
}

/// The decimal digits of a non-negative number: at least one character,
/// all digits, no leading zero unless the number is zero.
proof fn l_dec_digits_shape(m: int)
    requires
        m >= 0,
    ensures
        dec_digits(m).len() >= 1,
        forall|q: int| 0 <= q < dec_digits(m).len() ==> is_digit(#[trigger] dec_digits(m)[q]),
        m >= 1 ==> dec_digits(m)[0] != '0',
        m == 0 ==> dec_digits(m) =~= seq!['0'],
    decreases m,
{
    if m < 10 {
        l_hex_inv(m);
    } else {
        l_dec_digits_shape(m / 10);
        l_hex_inv(m % 10);
        assert(dec_digits(m) == dec_digits(m / 10) + seq![hex_digit(m % 10)]);
        assert forall|q: int| 0 <= q < dec_digits(m).len() implies is_digit(
            #[trigger] dec_digits(m)[q],
        ) by {
            if q < dec_digits(m / 10).len() {
                assert(dec_digits(m)[q] == dec_digits(m / 10)[q]);
            } else {
                assert(dec_digits(m)[q] == hex_digit(m % 10));
            }
        }
        assert(dec_digits(m)[0] == dec_digits(m / 10)[0]);
    }
}

/// A run of digits ends exactly where the digits end.
proof fn l_digits_end_run(s: Seq<char>, i: int, j: int)
    requires
        0 <= i <= j <= s.len(),
        forall|q: int| i <= q < j ==> is_digit(#[trigger] s[q]),
        j < s.len() ==> !is_digit(s[j]),
    ensures
        digits_end(s, i) == j,
    decreases j - i,
{
    if i < j {
        l_digits_end_run(s, i + 1, j);
    }
}

/// Parsing an encoded integer literal recovers exactly the literal, when
/// the next character cannot continue a number.
proof fn l_number_enc(s: Seq<char>, i: int, n: int, j: int)
    requires
        0 <= i,
        i + enc_int(n).len() == j,
        j < s.len(),
        s.subrange(i, j) == enc_int(n),
        !is_digit(s[j]),
        s[j] != '.',
        s[j] != 'e',
        s[j] != 'E',
    ensures
        p_number(s, i) == Some((enc_int(n), j)),
{
    if n >= 0 {
        l_dec_digits_shape(n);
        assert forall|q: int| i <= q < j implies is_digit(#[trigger] s[q]) by {
            l_sub_at(s, i, j, enc_int(n), q - i);
        }
        l_sub_at(s, i, j, enc_int(n), 0);
        assert(s[i] == dec_digits(n)[0]);
        assert(s[i] != '-');
        if n == 0 {
            assert(s[i] == '0');
            assert(s.subrange(i, j) =~= seq!['0']);
            assert(j == i + 1);
        } else {
            assert(s[i] != '0');
            l_digits_end_run(s, i, j);
        }
    } else {
        assert(enc_int(n) == seq!['-'] + dec_digits(-n));
        l_dec_digits_shape(-n);
        l_sub_at(s, i, j, enc_int(n), 0);
        assert(s[i] == '-');
        assert forall|q: int| i + 1 <= q < j implies is_digit(#[trigger] s[q]) by {
            l_sub_at(s, i, j, enc_int(n), q - i);
            assert(enc_int(n)[q - i] == dec_digits(-n)[q - i - 1]);
        }
        l_sub_at(s, i, j, enc_int(n), 1);
        assert(s[i + 1] == dec_digits(-n)[0]);
        assert(s[i + 1] != '0');
        l_digits_end_run(s, i + 1, j);
    }
}

/// The first character of an encoded scalar: a letter of a keyword, a
/// quote, a digit or a minus sign, never whitespace.
proof fn l_scalar_head(v: ScalarV)
    ensures
        enc_scalar(v).len() >= 1,
        !is_ws(enc_scalar(v)[0]),
        enc_scalar(v)[0] != '}',
        enc_scalar(v)[0] != ',',
{
    match v {
        ScalarV::Num(n) => {
            if n >= 0 {
                l_dec_digits_shape(n);
                assert(is_digit(enc_scalar(v)[0]));
            } else {
                assert(enc_scalar(v)[0] == '-');
            }
        },
        _ => {},
    }
}

/// Parsing an encoded scalar recovers its wire value, when a separator
/// or a closing brace follows.
proof fn l_scalar_enc(s: Seq<char>, i: int, v: ScalarV, j: int)
    requires
        0 <= i,
        i + enc_scalar(v).len() == j,
        j < s.len(),
        s.subrange(i, j) == enc_scalar(v),
        s[j] == ',' || s[j] == '}',
    ensures
        p_value(s, i) == Some((scalar_jv(v), j)),
{
    match v {
        ScalarV::Null => {
            l_sub_at(s, i, j, enc_scalar(v), 0);
            l_sub_at(s, i, j, enc_scalar(v), 1);
            l_sub_at(s, i, j, enc_scalar(v), 2);
            l_sub_at(s, i, j, enc_scalar(v), 3);
            assert(s[i] == 'n' && s[i + 1] == 'u' && s[i + 2] == 'l' && s[i + 3] == 'l');
        },
        ScalarV::Bool(b) => {
            if b {
                l_sub_at(s, i, j, enc_scalar(v), 0);
                l_sub_at(s, i, j, enc_scalar(v), 1);
                l_sub_at(s, i, j, enc_scalar(v), 2);
                l_sub_at(s, i, j, enc_scalar(v), 3);
                assert(s[i] == 't' && s[i + 1] == 'r' && s[i + 2] == 'u' && s[i + 3] == 'e');
            } else {
                l_sub_at(s, i, j, enc_scalar(v), 0);
                l_sub_at(s, i, j, enc_scalar(v), 1);
                l_sub_at(s, i, j, enc_scalar(v), 2);
                l_sub_at(s, i, j, enc_scalar(v), 3);
                l_sub_at(s, i, j, enc_scalar(v), 4);
                assert(s[i] == 'f' && s[i + 1] == 'a' && s[i + 2] == 'l' && s[i + 3] == 's' && s[i
                    + 4] == 'e');
            }
        },
        ScalarV::Num(n) => {
            l_number_enc(s, i, n, j);
            if n >= 0 {
                l_dec_digits_shape(n);
                l_sub_at(s, i, j, enc_scalar(v), 0);
                assert(is_digit(s[i]));
            } else {
                l_sub_at(s, i, j, enc_scalar(v), 0);
                assert(s[i] == '-');
            }
        },
        ScalarV::Str(t) => {
            l_sub_at(s, i, j, enc_scalar(v), 0);
            assert(s[i] == '"');
            l_string_enc(s, i, t, j);
        },
    }
}

/// Reading comma-separated members from the front.
proof fn l_enc_pairs_front(vars: Seq<(Seq<char>, ScalarV)>)
    requires
        vars.len() >= 1,
    ensures
        enc_pairs(vars) == enc_member(vars[0]) + (if vars.len() == 1 {
            Seq::<char>::empty()
        } else {
            seq![','] + enc_pairs(vars.drop_first())
        }),
    decreases vars.len(),
{
    if vars.len() == 1 {
        assert(enc_member(vars[0]) + Seq::<char>::empty() =~= enc_member(vars[0]));
    } else if vars.len() == 2 {
        assert(vars.drop_last()[0] == vars[0]);
        assert(enc_pairs(vars.drop_last()) == enc_member(vars[0]));
        assert(vars.drop_first().len() == 1);
        assert(vars.drop_first()[0] == vars[1]);
        assert(enc_pairs(vars.drop_first()) == enc_member(vars[1]));
        assert(vars.last() == vars[1]);
        assert(enc_member(vars[0]) + seq![','] + enc_member(vars[1]) =~= enc_member(vars[0]) + (
        seq![','] + enc_member(vars[1])));
    } else {
        l_enc_pairs_front(vars.drop_last());
        assert(vars.drop_last()[0] == vars[0]);
        assert(vars.drop_last().drop_first() =~= vars.drop_first().drop_last());
        assert(vars.drop_first().last() == vars.last());
        assert(vars.drop_first().len() >= 2);
        assert(enc_pairs(vars.drop_first()) == enc_pairs(vars.drop_first().drop_last())
            + seq![','] + enc_member(vars.drop_first().last()));
        assert(enc_pairs(vars) == enc_pairs(vars.drop_last()) + seq![','] + enc_member(
            vars.last(),
        ));
        assert(enc_pairs(vars) =~= enc_member(vars[0]) + (seq![','] + enc_pairs(
            vars.drop_first(),
        )));
    }
}

/// Parsing encoded members recovers every binding, in order, up to and
/// including the closing brace.
proof fn l_members_enc(s: Seq<char>, i: int, vars: Seq<(Seq<char>, ScalarV)>, j: int)
    requires
        0 <= i,
        i + enc_pairs(vars).len() == j,
        j < s.len(),
        s.subrange(i, j) == enc_pairs(vars),
        vars.len() >= 1,
        s[j] == '}',
    ensures
        p_members(s, i) == Some((vars_members(vars), j + 1)),
    decreases vars.len(),
{
    l_enc_pairs_front(vars);
    let key = vars[0].0;
    let v = vars[0].1;
    let em = enc_member(vars[0]);
    let rest = if vars.len() == 1 {
        Seq::<char>::empty()
    } else {
        seq![','] + enc_pairs(vars.drop_first())
    };
    let mend = i + em.len();
    l_split(s, i, em, rest, j);
    assert(s.subrange(i, mend) =~= em);
    let ks = enc_string(key).len();
    assert(em =~= enc_string(key) + (seq![':'] + enc_scalar(v)));
    assert(s.subrange(i, mend) =~= enc_string(key) + (seq![':'] + enc_scalar(v)));
    l_split(s, i, enc_string(key), seq![':'] + enc_scalar(v), mend);
    assert(s.subrange(i, i + ks) =~= enc_string(key));
    l_split(s, i + ks, seq![':'], enc_scalar(v), mend);
    l_sub_at(s, i + ks, i + ks + 1, seq![':'], 0);
    assert(s[i + ks] == ':');
    assert(s.subrange(i + ks + 1, mend) =~= enc_scalar(v));
    l_sub_at(s, i, i + ks, enc_string(key), 0);
    assert(s[i] == '"');
    l_skip_ws_id(s, i);
    l_string_enc(s, i, key, i + ks);
    l_skip_ws_id(s, i + ks);
    l_scalar_head(v);
    l_sub_at(s, i + ks + 1, mend, enc_scalar(v), 0);
    l_skip_ws_id(s, i + ks + 1);
    if vars.len() == 1 {
        assert(mend == j);
        l_scalar_enc(s, i + ks + 1, v, j);
        l_skip_ws_id(s, j);
        assert(p_elem(s, i + ks + 1) == Some((scalar_jv(v), j)));
        assert(p_members(s, i) == Some((seq![(key, scalar_jv(v))], j + 1)));
        assert(vars_members(vars) =~= seq![(key, scalar_jv(v))]);
    } else {
        l_sub_at(s, mend, j, rest, 0);
        assert(s[mend] == ',');
        l_scalar_enc(s, i + ks + 1, v, mend);
        l_skip_ws_id(s, mend);
        assert(p_elem(s, i + ks + 1) == Some((scalar_jv(v), mend)));
        l_split(s, mend, seq![','], enc_pairs(vars.drop_first()), j);
        assert(s.subrange(mend + 1, j) =~= enc_pairs(vars.drop_first()));
        l_members_enc(s, mend + 1, vars.drop_first(), j);
        assert(p_members(s, i) == Some((seq![(key, scalar_jv(v))] + vars_members(
            vars.drop_first(),
        ), j + 1)));
        assert(seq![(key, scalar_jv(v))] + vars_members(vars.drop_first()) =~= vars_members(vars));
    }
}

/// Escaping text that needs no escapes writes it as it stands.
proof fn l_esc_plain(t: Seq<char>)
    requires
        forall|q: int|
            0 <= q < t.len() ==> (#[trigger] t[q]) != '"' && t[q] != '\\' && (t[q] as u32) >= 0x20,
    ensures
        esc_seq(t) == t,
    decreases t.len(),
{
    if t.len() > 0 {
        assert(forall|q: int|
            0 <= q < t.drop_first().len() ==> #[trigger] t.drop_first()[q] == t[q + 1]);
        l_esc_plain(t.drop_first());
        assert(esc_char(t[0]) =~= seq![t[0]]);
        assert(seq![t[0]] + t.drop_first() =~= t);
    }
}

/// Parsing an encoded variables object recovers every binding.
proof fn l_vars_obj(s: Seq<char>, i: int, vars: Seq<(Seq<char>, ScalarV)>, j: int)
    requires
        0 <= i,
        i + enc_vars(vars).len() == j,
        j <= s.len(),
        s.subrange(i, j) == enc_vars(vars),
    ensures
        p_value(s, i) == Some((JsonV::Obj(vars_members(vars)), j)),
{
    let ev = enc_vars(vars);
    let pl = enc_pairs(vars).len() as int;
    l_sub_at(s, i, j, ev, 0);
    assert(s[i] == '{');
    if vars.len() == 0 {
        assert(ev =~= seq!['{', '}']);
        l_sub_at(s, i, j, ev, 1);
        assert(s[i + 1] == '}');
        l_skip_ws_id(s, i + 1);
        assert(vars_members(vars) =~= Seq::<(Seq<char>, JsonV)>::empty());
    } else {
        l_enc_pairs_front(vars);
        assert(enc_pairs(vars)[0] == '"') by {
            assert(enc_pairs(vars)[0] == enc_member(vars[0])[0]);
            assert(enc_member(vars[0])[0] == enc_string(vars[0].0)[0]);
        }
        assert(ev =~= seq!['{'] + (enc_pairs(vars) + seq!['}']));
        assert(s.subrange(i, j) =~= seq!['{'] + (enc_pairs(vars) + seq!['}']));
        l_split(s, i, seq!['{'], enc_pairs(vars) + seq!['}'], j);
        l_split(s, i + 1, enc_pairs(vars), seq!['}'], j);
        assert(s.subrange(i + 1, j - 1) =~= enc_pairs(vars));
        l_sub_at(s, i + 1, j - 1, enc_pairs(vars), 0);
        assert(s[i + 1] == '"');
        l_sub_at(s, j - 1, j, seq!['}'] + Seq::<char>::empty(), 0);
        assert(s[j - 1] == '}') by {
            l_sub_at(s, i, j, ev, 1 + pl);
            assert(ev[1 + pl] == (seq!['{'] + (enc_pairs(vars) + seq!['}']))[1 + pl]);
        }
        l_skip_ws_id(s, i + 1);
        l_members_enc(s, i + 1, vars, j - 1);
    }
}

/// The layout of a request body: where each piece stands in the text.
#[verifier::rlimit(100)]
proof fn l_rt_layout(doc: Seq<char>, vars: Seq<(Seq<char>, ScalarV)>, p0: int, p1: int, p2: int)
    requires
        p0 == 9 + enc_string(doc).len(),
        p1 == p0 + 13,
        p2 == p1 + enc_vars(vars).len(),
    ensures
        ({
            let s = request_body(doc, Some(vars));
            &&& s.len() == p2 + 1
            &&& s[0] == '{'
            &&& s[1] == '"'
            &&& s[8] == ':'
            &&& s[9] == '"'
            &&& s[p0] == ','
            &&& s[p0 + 1] == '"'
            &&& s[p0 + 12] == ':'
            &&& s[p1] == '{'
            &&& s[p2] == '}'
            &&& p_string(s, 1) == Some((seq!['q', 'u', 'e', 'r', 'y'], 8int))
            &&& p_string(s, 9) == Some((doc, p0))
            &&& p_string(s, p0 + 1) == Some(
                (seq!['v', 'a', 'r', 'i', 'a', 'b', 'l', 'e', 's'], p0 + 12),
            )
            &&& s.subrange(p1, p2) == enc_vars(vars)
        }),
{
    let s = request_body(doc, Some(vars));
    let hh = seq!['{', '"', 'q', 'u', 'e', 'r', 'y', '"', ':'];
    let mm = seq![',', '"', 'v', 'a', 'r', 'i', 'a', 'b', 'l', 'e', 's', '"', ':'];
    let qk = seq!['q', 'u', 'e', 'r', 'y'];
    let vk = seq!['v', 'a', 'r', 'i', 'a', 'b', 'l', 'e', 's'];
    let dd = enc_string(doc);
    let ev = enc_vars(vars);
    let ll = s.len() as int;
    assert(s.subrange(0, ll) =~= s);
    assert(s == ((hh + dd) + (mm + ev)) + seq!['}']);
    l_split(s, 0, (hh + dd) + (mm + ev), seq!['}'], ll);
    l_split(s, 0, hh + dd, mm + ev, p2);
    l_split(s, 0, hh, dd, p0);
    l_split(s, p0, mm, ev, p2);
    assert forall|q: int| 0 <= q < 9 implies s[q] == hh[q] by {
        l_sub_at(s, 0, 9, hh, q);
    }
    assert forall|q: int| 0 <= q < 13 implies s[p0 + q] == mm[q] by {
        l_sub_at(s, p0, p1, mm, q);
    }
    assert(s[p2] == '}') by {
        l_sub_at(s, p2, ll, seq!['}'], 0);
    }
    l_esc_plain(qk);
    l_esc_plain(vk);
    assert(p_string(s, 1) == Some((qk, 8int))) by {
        assert(s.subrange(1, 8) =~= enc_string(qk)) by {
            assert(forall|q: int| 0 <= q < 7 ==> #[trigger] s.subrange(1, 8)[q] == s[1 + q]);
        }
        l_string_enc(s, 1, qk, 8);
    }
    assert(p_string(s, p0 + 1) == Some((vk, p0 + 12))) by {
        assert(s.subrange(p0 + 1, p0 + 12) =~= enc_string(vk)) by {
            assert(forall|q: int|
                0 <= q < 11 ==> #[trigger] s.subrange(p0 + 1, p0 + 12)[q] == s[p0 + 1 + q]);
        }
        l_string_enc(s, p0 + 1, vk, p0 + 12);
    }
    assert(p_string(s, 9) == Some((doc, p0))) by {
        l_string_enc(s, 9, doc, p0);
    }
    assert(s[9] == '"') by {
        l_sub_at(s, 9, p0, dd, 0);
    }
    assert(s[p1] == '{') by {
        l_sub_at(s, p1, p2, ev, 0);
    }
}

/// Round trip: the serialized request body parses back to an object that
/// holds the document under the `query` key and, under the `variables`
/// key, exactly the key/value pairs of the given mapping, in order.
pub proof fn lemma_request_round_trip(doc: Seq<char>, vars: Seq<(Seq<char>, ScalarV)>)
    ensures
        p_doc(request_body(doc, Some(vars))) == Some(
            JsonV::Obj(
                seq![(seq!['q', 'u', 'e', 'r', 'y'], JsonV::Str(doc))] + seq![
                    (
                        seq!['v', 'a', 'r', 'i', 'a', 'b', 'l', 'e', 's'],
                        JsonV::Obj(vars_members(vars)),
                    ),
                ],
            ),
        ),
{
    let s = request_body(doc, Some(vars));
    let p0 = 9 + enc_string(doc).len() as int;
    let p1 = p0 + 13;
    let p2 = p1 + enc_vars(vars).len() as int;
    l_rt_layout(doc, vars, p0, p1, p2);
    l_vars_obj(s, p1, vars, p2);
    l_assemble(s, doc, JsonV::Obj(vars_members(vars)), p0, p1, p2);
}

/// The two fixed keys of the body, written out as character sequences.
pub proof fn lemma_body_key_names()
    ensures
        "query"@ == seq!['q', 'u', 'e', 'r', 'y'],
        "variables"@ == seq!['v', 'a', 'r', 'i', 'a', 'b', 'l', 'e', 's'],
{
    reveal_strlit("query");
    reveal_strlit("variables");
    assert("query"@ =~= seq!['q', 'u', 'e', 'r', 'y']);
    assert("variables"@ =~= seq!['v', 'a', 'r', 'i', 'a', 'b', 'l', 'e', 's']);
}

/// Stepping through the whole body once each part is known to parse.
proof fn l_assemble(s: Seq<char>, doc: Seq<char>, vobj: JsonV, p0: int, p1: int, p2: int)
    requires
        9 <= p0,
        p1 == p0 + 13,
        p0 < p1 < p2,
        s.len() == p2 + 1,
        s[0] == '{',
        s[1] == '"',
        s[8] == ':',
        s[9] == '"',
        s[p0] == ',',
        s[p0 + 1] == '"',
        s[p0 + 12] == ':',
        s[p1] == '{',
        s[p2] == '}',
        p_string(s, 1) == Some((seq!['q', 'u', 'e', 'r', 'y'], 8int)),
        p_string(s, 9) == Some((doc, p0)),
        p_string(s, p0 + 1) == Some((seq!['v', 'a', 'r', 'i', 'a', 'b', 'l', 'e', 's'], p0 + 12)),
        p_value(s, p1) == Some((vobj, p2)),
        vobj is Obj,
    ensures
        p_doc(s) == Some(
            JsonV::Obj(
                seq![(seq!['q', 'u', 'e', 'r', 'y'], JsonV::Str(doc))] + seq![
                    (seq!['v', 'a', 'r', 'i', 'a', 'b', 'l', 'e', 's'], vobj),
                ],
            ),
        ),
{
    let ll = p2 + 1;
    let qk = seq!['q', 'u', 'e', 'r', 'y'];
    let vk = seq!['v', 'a', 'r', 'i', 'a', 'b', 'l', 'e', 's'];
    l_skip_ws_id(s, 0);
    l_skip_ws_id(s, 1);
    l_skip_ws_id(s, 8);
    l_skip_ws_id(s, 9);
    l_skip_ws_id(s, p0);
    l_skip_ws_id(s, p0 + 1);
    l_skip_ws_id(s, p0 + 12);
    l_skip_ws_id(s, p1);
    l_skip_ws_id(s, p2);
    l_skip_ws_id(s, ll);
    assert(p_elem(s, 9) == Some((JsonV::Str(doc), p0)));
    assert(p_elem(s, p1) == Some((vobj, p2)));
    assert(p_members(s, p0 + 1) == Some((seq![(vk, vobj)], p2 + 1)));
    assert(p_members(s, 1) == Some((seq![(qk, JsonV::Str(doc))] + seq![(vk, vobj)], p2 + 1)));
    assert(p_value(s, 0) == Some(
        (JsonV::Obj(seq![(qk, JsonV::Str(doc))] + seq![(vk, vobj)]), ll),
    ));
}

} // verus!
