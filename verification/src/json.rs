//! The JSON value model.  Numbers are kept as their literal text, so the
//! library never loses precision and never touches floating point.

use vstd::prelude::*;
use crate::text::str_eq;

verus! {

broadcast use vstd::std_specs::vec::axiom_vec_decreases_to_view, vstd::seq::axiom_seq_index_decreases, vstd::seq::axiom_seq_subrange_decreases;

/// The mathematical shape of a JSON value: strings as character
/// sequences, numbers as their literal text, objects as ordered
/// key/value pair sequences.
pub enum JsonV {
    Null,
    Bool(bool),
    Num(Seq<char>),
    Str(Seq<char>),
    Arr(Seq<JsonV>),
    Obj(Seq<(Seq<char>, JsonV)>),
}

/// A decoded JSON value.  A number keeps the text of its literal.
#[derive(Debug, PartialEq, Eq)]
pub enum Json {
    Null,
    Bool(bool),
    Num(String),
    Str(String),
    Arr(Vec<Json>),
    Obj(Vec<(String, Json)>),
}

/// The mathematical value of a JSON tree.
pub open spec fn jv(j: Json) -> JsonV
    decreases j,
    via jv_dec
{
    match j {
        Json::Null => JsonV::Null,
        Json::Bool(b) => JsonV::Bool(b),
        Json::Num(t) => JsonV::Num(t@),
        Json::Str(t) => JsonV::Str(t@),
        Json::Arr(items) => JsonV::Arr(jv_seq(items@)),
        Json::Obj(pairs) => JsonV::Obj(jv_pairs(pairs@)),
    }
}

/// The values of a sequence of JSON trees.
pub open spec fn jv_seq(s: Seq<Json>) -> Seq<JsonV>
    decreases s,
    via jv_seq_dec
{
    if s.len() == 0 {
        Seq::empty()
    } else {
        seq![jv(s[0])] + jv_seq(s.subrange(1, s.len() as int))
    }
}

/// The values of a sequence of object members.
pub open spec fn jv_pairs(s: Seq<(String, Json)>) -> Seq<(Seq<char>, JsonV)>
    decreases s,
    via jv_pairs_dec
{
    if s.len() == 0 {
        Seq::empty()
    } else {
        seq![(s[0].0@, jv(s[0].1))] + jv_pairs(s.subrange(1, s.len() as int))
    }
}

#[via_fn]
proof fn jv_dec(j: Json) {
    match j {
        Json::Arr(items) => {
            assert(decreases_to!(j => items));
            assert(decreases_to!(items => items@));
        },
        Json::Obj(pairs) => {
            assert(decreases_to!(j => pairs));
            assert(decreases_to!(pairs => pairs@));
        },
        _ => {},
    }
}

#[via_fn]
proof fn jv_seq_dec(s: Seq<Json>) {
    if s.len() > 0 {
        assert(decreases_to!(s => s[0]));
        assert(decreases_to!(s => s.subrange(1, s.len() as int)));
    }
}

#[via_fn]
proof fn jv_pairs_dec(s: Seq<(String, Json)>) {
    if s.len() > 0 {
        assert(decreases_to!(s => s[0]));
        assert(decreases_to!(s[0] => s[0].1));
        assert(decreases_to!(s => s.subrange(1, s.len() as int)));
    }
}

impl View for Json {
    type V = JsonV;

    open spec fn view(&self) -> JsonV {
        jv(*self)
    }
}

/// `jv_seq` maps `jv` over the sequence, element by element.
pub proof fn lemma_jv_seq(s: Seq<Json>)
    ensures
        jv_seq(s).len() == s.len(),
        forall|i: int| 0 <= i < s.len() ==> jv_seq(s)[i] == jv(s[i]),
    decreases s.len(),
{
    if s.len() > 0 {
        lemma_jv_seq(s.subrange(1, s.len() as int));
    }
}

/// `jv_pairs` maps key and value views over the sequence, element by element.
pub proof fn lemma_jv_pairs(s: Seq<(String, Json)>)
    ensures
        jv_pairs(s).len() == s.len(),
        forall|i: int| 0 <= i < s.len() ==> jv_pairs(s)[i] == (s[i].0@, jv(s[i].1)),
    decreases s.len(),
{
    if s.len() > 0 {
        lemma_jv_pairs(s.subrange(1, s.len() as int));
    }
}

/// The first member of `pairs` whose key is `k`, if any.
pub open spec fn obj_lookup(pairs: Seq<(Seq<char>, JsonV)>, k: Seq<char>) -> Option<JsonV>
    decreases pairs.len(),
{
    if pairs.len() == 0 {
        None
    } else if pairs[0].0 == k {
        Some(pairs[0].1)
    } else {
        obj_lookup(pairs.drop_first(), k)
    }
}

/// Looking a key up in one more member appended at the end: an earlier
/// member still wins.
pub proof fn lemma_obj_lookup_push(ps: Seq<(Seq<char>, JsonV)>, p: (Seq<char>, JsonV), k: Seq<char>)
    ensures
        obj_lookup(ps.push(p), k) == (match obj_lookup(ps, k) {
            Some(x) => Some(x),
            None => if p.0 == k {
                Some(p.1)
            } else {
                None
            },
        }),
    decreases ps.len(),
{
    if ps.len() == 0 {
        assert(ps.push(p)[0] == p);
        assert(ps.push(p).drop_first() =~= Seq::<(Seq<char>, JsonV)>::empty());
        assert(obj_lookup(Seq::<(Seq<char>, JsonV)>::empty(), k) is None);
    } else {
        assert(ps.push(p)[0] == ps[0]);
        assert(ps.push(p).drop_first() =~= ps.drop_first().push(p));
        lemma_obj_lookup_push(ps.drop_first(), p, k);
    }
}

/// Dropping the last member commutes with taking views.
pub proof fn lemma_jv_pairs_drop_last(s: Seq<(String, Json)>)
    requires
        s.len() > 0,
    ensures
        jv_pairs(s.drop_last()) == jv_pairs(s).drop_last(),
        jv_pairs(s).last() == (s.last().0@, jv(s.last().1)),
{
    lemma_jv_pairs(s);
    lemma_jv_pairs(s.drop_last());
    assert(jv_pairs(s.drop_last()) =~= jv_pairs(s).drop_last());
}

impl JsonV {
    /// Member lookup: the value under `k` when `self` is an object that
    /// holds that key, `None` otherwise.
    pub open spec fn get(self, k: Seq<char>) -> Option<JsonV> {
        match self {
            JsonV::Obj(pairs) => obj_lookup(pairs, k),
            _ => None,
        }
    }
}

impl Json {
    /// Member lookup on an object, `None` on any other value or when the
    /// key is absent.
    pub fn get<'a>(&'a self, k: &str) -> (r: Option<&'a Json>)
        ensures
            match r {
                Some(j) => self@.get(k@) == Some(j@),
                None => self@.get(k@) is None,
            },
    {
        match self {
            Json::Obj(pairs) => {
                proof {
                    lemma_jv_pairs(pairs@);
                    assert(jv_pairs(pairs@).skip(0) =~= jv_pairs(pairs@));
                }
                let n = pairs.len();
                let mut i: usize = 0;
                while i < n
                    invariant
                        n == pairs.len(),
                        i <= n,
                        self@ == JsonV::Obj(jv_pairs(pairs@)),
                        jv_pairs(pairs@).len() == n,
                        forall|q: int|
                            0 <= q < n ==> jv_pairs(pairs@)[q] == (pairs@[q].0@, jv(pairs@[q].1)),
                        obj_lookup(jv_pairs(pairs@), k@) == obj_lookup(
                            jv_pairs(pairs@).skip(i as int),
                            k@,
                        ),
                    decreases n - i,
                {
                    proof {
                        assert(jv_pairs(pairs@).skip(i as int)[0] == jv_pairs(pairs@)[i as int]);
                    }
                    if str_eq(pairs[i].0.as_str(), k) {
                        return Some(&pairs[i].1);
                    }
                    proof {
                        assert(jv_pairs(pairs@).skip(i as int).drop_first() =~= jv_pairs(
                            pairs@,
                        ).skip(i as int + 1));
                    }
                    i = i + 1;
                }
                proof {
                    assert(jv_pairs(pairs@).skip(n as int) =~= Seq::<(Seq<char>, JsonV)>::empty());
                }
                None
            },
            _ => None,
        }
    }
}

} // verus!
