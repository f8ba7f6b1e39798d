//! The wire encoding of a request: the JSON body
//! `{"query": <document>, "variables": {...}}`, with the variables object
//! omitted when no mapping is given.  The library frames these bytes
//! itself, so the whole encoding is specified and verified.

use vstd::prelude::*;
use crate::text::string_of_chars;
use crate::vars::{Scalar, ScalarV, Variables};

verus! {

/// The digit character for a value below 16, lower case.
pub open spec fn hex_digit(v: int) -> char {
    if v == 0 { '0' }
    else if v == 1 { '1' }
    else if v == 2 { '2' }
    else if v == 3 { '3' }
    else if v == 4 { '4' }
    else if v == 5 { '5' }
    else if v == 6 { '6' }
    else if v == 7 { '7' }
    else if v == 8 { '8' }
    else if v == 9 { '9' }
    else if v == 10 { 'a' }
    else if v == 11 { 'b' }
    else if v == 12 { 'c' }
    else if v == 13 { 'd' }
    else if v == 14 { 'e' }
    else { 'f' }
}

/// How one character is written inside a JSON string: quote and backslash
/// get a backslash escape, control characters a `\u00..` escape, and
/// every other character stands as itself.
pub open spec fn esc_char(c: char) -> Seq<char> {
    if c == '"' {
        seq!['\\', '"']
    } else if c == '\\' {
        seq!['\\', '\\']
    } else if (c as u32) < 0x20 {
        seq!['\\', 'u', '0', '0', hex_digit(((c as u32) / 16) as int), hex_digit(
            ((c as u32) % 16) as int,
        )]
    } else {
        seq![c]
    }
}

/// The escaped body of a JSON string.
pub open spec fn esc_seq(s: Seq<char>) -> Seq<char>
    decreases s.len(),
{
    if s.len() == 0 {
        Seq::empty()
    } else {
        esc_char(s[0]) + esc_seq(s.drop_first())
    }
}

/// A JSON string literal: quoted, escaped text.
pub open spec fn enc_string(s: Seq<char>) -> Seq<char> {
    seq!['"'] + esc_seq(s) + seq!['"']
}

/// The decimal digits of a non-negative number.
pub open spec fn dec_digits(n: int) -> Seq<char>
    decreases n,
{
    if n < 0 {
        Seq::empty()
    } else if n < 10 {
        seq![hex_digit(n)]
    } else {
        dec_digits(n / 10) + seq![hex_digit(n % 10)]
    }
}

/// A JSON integer literal.
pub open spec fn enc_int(n: int) -> Seq<char> {
    if n < 0 {
        seq!['-'] + dec_digits(-n)
    } else {
        dec_digits(n)
    }
}

/// The JSON text of one variable value.
pub open spec fn enc_scalar(v: ScalarV) -> Seq<char> {
    match v {
        ScalarV::Null => seq!['n', 'u', 'l', 'l'],
        ScalarV::Bool(b) => if b {
            seq!['t', 'r', 'u', 'e']
        } else {
            seq!['f', 'a', 'l', 's', 'e']
        },
        ScalarV::Num(n) => enc_int(n),
        ScalarV::Str(s) => enc_string(s),
    }
}

/// One `"key":value` member.
pub open spec fn enc_member(p: (Seq<char>, ScalarV)) -> Seq<char> {
    enc_string(p.0) + seq![':'] + enc_scalar(p.1)
}

/// Comma-separated members, in order.
pub open spec fn enc_pairs(ps: Seq<(Seq<char>, ScalarV)>) -> Seq<char>
    decreases ps.len(),
{
    if ps.len() == 0 {
        Seq::empty()
    } else if ps.len() == 1 {
        enc_member(ps[0])
    } else {
        enc_pairs(ps.drop_last()) + seq![','] + enc_member(ps.last())
    }
}

/// The variables object.
pub open spec fn enc_vars(ps: Seq<(Seq<char>, ScalarV)>) -> Seq<char> {
    seq!['{'] + enc_pairs(ps) + seq!['}']
}

/// The whole request body: the document under `"query"`, and the
/// variables object under `"variables"` when a mapping is given, omitted
/// entirely when none is.
pub open spec fn request_body(doc: Seq<char>, vars: Option<Seq<(Seq<char>, ScalarV)>>) -> Seq<
    char,
> {
    seq!['{', '"', 'q', 'u', 'e', 'r', 'y', '"', ':'] + enc_string(doc) + (match vars {
        Some(ps) => seq![',', '"', 'v', 'a', 'r', 'i', 'a', 'b', 'l', 'e', 's', '"', ':']
            + enc_vars(ps),
        None => Seq::<char>::empty(),
    }) + seq!['}']
}

/// Escaping distributes over concatenation.
pub proof fn lemma_esc_concat(a: Seq<char>, b: Seq<char>)
    ensures
        esc_seq(a + b) == esc_seq(a) + esc_seq(b),
    decreases a.len(),
{
    if a.len() == 0 {
        assert(a + b =~= b);
        assert(esc_seq(a) + esc_seq(b) =~= esc_seq(b));
    } else {
        assert((a + b).drop_first() =~= a.drop_first() + b);
        assert((a + b)[0] == a[0]);
        lemma_esc_concat(a.drop_first(), b);
        assert(esc_char(a[0]) + (esc_seq(a.drop_first()) + esc_seq(b)) =~= (esc_char(a[0])
            + esc_seq(a.drop_first())) + esc_seq(b));
    }
}

/// Escaping a single character writes exactly its escape.
pub proof fn lemma_esc_singleton(c: char)
    ensures
        esc_seq(seq![c]) == esc_char(c),
{
    assert(seq![c].drop_first() =~= Seq::<char>::empty());
    assert(esc_seq(Seq::<char>::empty()) == Seq::<char>::empty());
    assert(esc_seq(seq![c]) == esc_char(c) + esc_seq(seq![c].drop_first()));
    assert(esc_char(c) + Seq::<char>::empty() =~= esc_char(c));
}

fn hex_digit_x(v: u64) -> (c: char)
    requires
        v < 16,
    ensures
        c == hex_digit(v as int),
{
    if v == 0 { '0' }
    else if v == 1 { '1' }
    else if v == 2 { '2' }
    else if v == 3 { '3' }
    else if v == 4 { '4' }
    else if v == 5 { '5' }
    else if v == 6 { '6' }
    else if v == 7 { '7' }
    else if v == 8 { '8' }
    else if v == 9 { '9' }
    else if v == 10 { 'a' }
    else if v == 11 { 'b' }
    else if v == 12 { 'c' }
    else if v == 13 { 'd' }
    else if v == 14 { 'e' }
    else { 'f' }
}

fn push_escaped_chars(out: &mut Vec<char>, cs: &Vec<char>)
    ensures
        final(out)@ == old(out)@ + esc_seq(cs@),
{
    let n = cs.len();
    let mut i: usize = 0;
    proof {
        assert(cs@.take(0) =~= Seq::<char>::empty());
    }
    while i < n
        invariant
            n == cs@.len(),
            i <= n,
            out@ == old(out)@ + esc_seq(cs@.take(i as int)),
        decreases n - i,
    {
        let c = cs[i];
        if c == '"' {
            out.push('\\');
            out.push('"');
        } else if c == '\\' {
            out.push('\\');
            out.push('\\');
        } else if (c as u32) < 0x20 {
            out.push('\\');
            out.push('u');
            out.push('0');
            out.push('0');
            out.push(hex_digit_x(((c as u32) / 16) as u64));
            out.push(hex_digit_x(((c as u32) % 16) as u64));
        } else {
            out.push(c);
        }
        proof {
            assert(cs@.take(i as int + 1) =~= cs@.take(i as int) + seq![cs@[i as int]]);
            lemma_esc_concat(cs@.take(i as int), seq![cs@[i as int]]);
            lemma_esc_singleton(cs@[i as int]);
            assert(out@ =~= old(out)@ + esc_seq(cs@.take(i as int + 1)));
        }
        i = i + 1;
    }
    proof {
        assert(cs@.take(n as int) =~= cs@);
    }
}

fn push_string(out: &mut Vec<char>, s: &str)
    ensures
        final(out)@ == old(out)@ + enc_string(s@),
{
    let cs = crate::text::chars_of(s);
    out.push('"');
    push_escaped_chars(out, &cs);
    out.push('"');
    proof {
        assert(out@ =~= old(out)@ + enc_string(s@));
    }
}

fn push_digits(out: &mut Vec<char>, n: u64)
    ensures
        final(out)@ == old(out)@ + dec_digits(n as int),
    decreases n,
{
    if n < 10 {
        out.push(hex_digit_x(n));
        proof {
            assert(out@ =~= old(out)@ + dec_digits(n as int));
        }
    } else {
        push_digits(out, n / 10);
        out.push(hex_digit_x(n % 10));
        proof {
            assert(out@ =~= old(out)@ + dec_digits(n as int));
        }
    }
}

fn push_scalar(out: &mut Vec<char>, v: &Scalar)
    ensures
        final(out)@ == old(out)@ + enc_scalar(v@),
{
    match v {
        Scalar::Null => {
            out.push('n');
            out.push('u');
            out.push('l');
            out.push('l');
            proof {
                assert(out@ =~= old(out)@ + enc_scalar(v@));
            }
        },
        Scalar::Bool(b) => {
            if *b {
                out.push('t');
                out.push('r');
                out.push('u');
                out.push('e');
            } else {
                out.push('f');
                out.push('a');
                out.push('l');
                out.push('s');
                out.push('e');
            }
            proof {
                assert(out@ =~= old(out)@ + enc_scalar(v@));
            }
        },
        Scalar::Num(n) => {
            let nn = *n;
            if nn < 0 {
                out.push('-');
                let m: u64 = ((-(nn + 1)) as u64) + 1;
                proof {
                    assert(m as int == -(nn as int));
                }
                push_digits(out, m);
                proof {
                    assert(out@ =~= old(out)@ + enc_scalar(v@));
                }
            } else {
                push_digits(out, nn as u64);
            }
        },
        Scalar::Str(s) => {
            push_string(out, s.as_str());
        },
    }
}

fn push_member(out: &mut Vec<char>, k: &String, v: &Scalar)
    ensures
        final(out)@ == old(out)@ + enc_member((k@, v@)),
{
    push_string(out, k.as_str());
    out.push(':');
    push_scalar(out, v);
    proof {
        assert(out@ =~= old(out)@ + enc_member((k@, v@)));
    }
}

/// Writes the body of one request: the document, and the variables when
/// a mapping is given.
pub fn encode_request(document: &str, variables: Option<&Variables>) -> (r: String)
    ensures
        r@ == request_body(
            document@,
            match variables {
                Some(v) => Some(v@),
                None => None,
            },
        ),
{
    let mut out: Vec<char> = Vec::new();
    out.push('{');
    out.push('"');
    out.push('q');
    out.push('u');
    out.push('e');
    out.push('r');
    out.push('y');
    out.push('"');
    out.push(':');
    proof {
        assert(out@ =~= seq!['{', '"', 'q', 'u', 'e', 'r', 'y', '"', ':']);
    }
    push_string(&mut out, document);
    match variables {
        Some(vs) => {
            out.push(',');
            out.push('"');
            out.push('v');
            out.push('a');
            out.push('r');
            out.push('i');
            out.push('a');
            out.push('b');
            out.push('l');
            out.push('e');
            out.push('s');
            out.push('"');
            out.push(':');
            out.push('{');
            let ghost mid = out@;
            let n = vs.pairs.len();
            proof {
                assert(vs@.take(0) =~= Seq::<(Seq<char>, ScalarV)>::empty());
            }
            let mut i: usize = 0;
            while i < n
                invariant
                    n == vs.pairs@.len(),
                    n == vs@.len(),
                    i <= n,
                    out@ == mid + enc_pairs(vs@.take(i as int)),
                    forall|q: int| 0 <= q < n ==> vs@[q] == (vs.pairs@[q].0@, vs.pairs@[q].1@),
                decreases n - i,
            {
                if i > 0 {
                    out.push(',');
                }
                push_member(&mut out, &vs.pairs[i].0, &vs.pairs[i].1);
                proof {
                    assert(vs@.take(i as int + 1).drop_last() =~= vs@.take(i as int));
                    assert(vs@.take(i as int + 1).last() == vs@[i as int]);
                    assert(out@ =~= mid + enc_pairs(vs@.take(i as int + 1)));
                }
                i = i + 1;
            }
            proof {
                assert(vs@.take(n as int) =~= vs@);
            }
            out.push('}');
            out.push('}');
            proof {
                assert(out@ =~= request_body(document@, Some(vs@)));
            }
        },
        None => {
            out.push('}');
            proof {
                assert(out@ =~= request_body(document@, None));
            }
        },
    }
    string_of_chars(&out)
}

} // verus!
